//! The statement sequencer: a script is cut into statements, macros are
//! expanded, and the statements are handed out one by one, in order, until
//! all have run or one has failed.

use vstd::prelude::*;
use vstd::string::StringExecFns;
use crate::query::marker;
use crate::text::{
    free_of, from_chars, is_blank, is_space, joined, lemma_replace_nothing, lemma_split_joined,
    replace_all, replaced, split, to_chars,
};

verus! {

/// A named statement text from the configuration.
#[derive(Clone, Debug, PartialEq, Eq)]
pub struct Macro {
    pub name: String,
    pub text: String,
}

/// A macro as a mathematical value.
pub struct MacroView {
    pub name: Seq<char>,
    pub text: Seq<char>,
}

impl View for Macro {
    type V = MacroView;

    open spec fn view(&self) -> MacroView {
        MacroView { name: self.name@, text: self.text@ }
    }
}

/// The character that separates the statements of a script.
pub open spec fn separator() -> char {
    ';'
}

/// The script with every separator that ends a line turned into a plain
/// separator.
pub open spec fn normalized(script: Seq<char>) -> Seq<char> {
    replace_all(script, seq![separator(), '\n'], seq![separator()])
}

/// The pieces of a script between its separators.
pub open spec fn segments(script: Seq<char>) -> Seq<Seq<char>> {
    split(normalized(script), separator())
}

/// What a segment stands for: the text of the first macro that the segment
/// is the token of, or else the segment itself. The text of a macro is not
/// expanded again.
pub open spec fn expansion(segment: Seq<char>, macros: Seq<Macro>) -> Seq<char>
    decreases macros.len(),
{
    if macros.len() == 0 {
        segment
    } else if marker(macros[0].name@) == segment {
        macros[0].text@
    } else {
        expansion(segment, macros.skip(1))
    }
}

/// The statements among the segments: each segment expanded, those left out
/// that hold nothing but white space.
pub open spec fn statements_of(pieces: Seq<Seq<char>>, macros: Seq<Macro>) -> Seq<Seq<char>>
    decreases pieces.len(),
{
    if pieces.len() == 0 {
        Seq::empty()
    } else {
        let rest = statements_of(pieces.drop_last(), macros);
        let statement = expansion(pieces.last(), macros);
        if is_blank(statement) {
            rest
        } else {
            rest.push(statement)
        }
    }
}

/// The statements of a script, in source order.
pub open spec fn script_statements(script: Seq<char>, macros: Seq<Macro>) -> Seq<Seq<char>> {
    statements_of(segments(script), macros)
}

/// Cuts a script into the pieces between its separators.
pub fn split_script(script: &str) -> (out: Vec<String>)
    ensures
        out@.map_values(|s: String| s@) == segments(script@),
{
    let mut from: Vec<char> = Vec::new();
    from.push(';');
    from.push('\n');
    let mut to: Vec<char> = Vec::new();
    to.push(';');
    let text = replaced(&to_chars(script), &from, &to);
    assert(from@ == seq![separator(), '\n']);
    assert(to@ == seq![separator()]);
    assert(text@ == normalized(script@));
    let mut done: Vec<String> = Vec::new();
    let mut current: Vec<char> = Vec::new();
    let mut i: usize = 0;
    assert(text@.take(0) == Seq::<char>::empty());
    assert(done@.map_values(|s: String| s@).push(current@) == seq![Seq::<char>::empty()]);
    while i < text.len()
        invariant
            i <= text.len(),
            split(text@.take(i as int), separator()) == done@.map_values(|s: String| s@).push(
                current@,
            ),
        decreases text.len() - i,
    {
        let ghost before = text@.take(i as int);
        let ghost after = text@.take(i + 1);
        let ghost old_done = done@.map_values(|s: String| s@);
        let ghost old_current = current@;
        proof {
            assert(after.drop_last() == before);
            assert(after.last() == text@[i as int]);
            assert(old_done.push(old_current).drop_last() == old_done);
            assert(old_done.push(old_current).last() == old_current);
        }
        if text[i] == ';' {
            let piece = from_chars(&current);
            done.push(piece);
            current = Vec::new();
            assert(done@.map_values(|s: String| s@) =~= old_done.push(old_current));
        } else {
            current.push(text[i]);
        }
        i += 1;
    }
    assert(text@.take(text@.len() as int) == text@);
    let ghost old_done = done@.map_values(|s: String| s@);
    done.push(from_chars(&current));
    assert(done@.map_values(|s: String| s@) =~= old_done.push(current@));
    done
}

/// Expands a segment that is the token of a macro.
pub fn expand_macro(segment: &String, macros: &Vec<Macro>) -> (out: String)
    ensures
        out@ == expansion(segment@, macros@),
{
    let mut i: usize = 0;
    assert(macros@.skip(0) == macros@);
    while i < macros.len()
        invariant
            i <= macros.len(),
            expansion(segment@, macros@) == expansion(segment@, macros@.skip(i as int)),
        decreases macros.len() - i,
    {
        let mut token = String::new();
        token.push('@');
        token.append(macros[i].name.as_str());
        assert(token@ == marker(macros@[i as int].name@));
        assert(macros@.skip(i as int)[0] == macros@[i as int]);
        if token == *segment {
            return macros[i].text.clone();
        }
        assert(macros@.skip(i as int).skip(1) == macros@.skip(i + 1));
        i += 1;
    }
    segment.clone()
}

/// Whether a text holds nothing but white space.
pub fn blank(s: &String) -> (yes: bool)
    ensures
        yes == is_blank(s@),
{
    let chars = to_chars(s.as_str());
    let mut i: usize = 0;
    while i < chars.len()
        invariant
            i <= chars.len(),
            chars@ == s@,
            forall|j: int| 0 <= j < i ==> is_space(#[trigger] chars@[j]),
        decreases chars.len() - i,
    {
        let c = chars[i];
        if !(c == ' ' || c == '\t' || c == '\n' || c == '\r' || c == '\x0b' || c == '\x0c') {
            return false;
        }
        i += 1;
    }
    true
}

/// The statements of a script, in source order: the script is cut at its
/// separators, each piece that is the token of a macro is replaced by the
/// macro's text, and the pieces that hold nothing but white space are
/// dropped.
pub fn statements(script: &str, macros: &Vec<Macro>) -> (out: Vec<String>)
    ensures
        out@.map_values(|s: String| s@) == script_statements(script@, macros@),
{
    let pieces = split_script(script);
    let mut out: Vec<String> = Vec::new();
    let mut i: usize = 0;
    let ghost views = pieces@.map_values(|s: String| s@);
    assert(views.take(0) == Seq::<Seq<char>>::empty());
    while i < pieces.len()
        invariant
            i <= pieces.len(),
            views == pieces@.map_values(|s: String| s@),
            out@.map_values(|s: String| s@) == statements_of(views.take(i as int), macros@),
        decreases pieces.len() - i,
    {
        let statement = expand_macro(&pieces[i], macros);
        proof {
            assert(views.take(i + 1).drop_last() == views.take(i as int));
            assert(views.take(i + 1).last() == pieces@[i as int]@);
        }
        if !blank(&statement) {
            let ghost old_out = out@.map_values(|s: String| s@);
            out.push(statement);
            assert(out@.map_values(|s: String| s@) =~= old_out.push(statement@));
        }
        i += 1;
    }
    assert(views.take(views.len() as int) == views);
    out
}

/// What happened since the sequencer last handed out a statement.
#[derive(Clone, Copy, Debug, PartialEq, Eq, Structural)]
pub enum Event {
    /// Nothing yet: the run begins.
    Started,
    /// The statement last handed out has run.
    Completed,
    /// The statement last handed out has failed.
    Failed,
}

/// What to do next.
#[derive(Clone, Debug, PartialEq, Eq)]
pub enum Action {
    /// Run this statement; show a banner with its text before its results
    /// if `banner` is set.
    Run { statement: String, banner: bool },
    /// Nothing is left to run.
    Stop,
}

/// An action as a mathematical value.
pub enum ActionView {
    Run { statement: Seq<char>, banner: bool },
    Stop,
}

impl View for Action {
    type V = ActionView;

    open spec fn view(&self) -> ActionView {
        match self {
            Action::Run { statement, banner } => ActionView::Run {
                statement: statement@,
                banner: *banner,
            },
            Action::Stop => ActionView::Stop,
        }
    }
}

/// The state of a run as a mathematical value: the statements, how many of
/// them were handed out, and whether one has failed.
pub struct Progress {
    pub statements: Seq<Seq<char>>,
    pub next: int,
    pub failed: bool,
}

/// The state before anything ran.
pub open spec fn initial(statements: Seq<Seq<char>>) -> Progress {
    Progress { statements, next: 0, failed: false }
}

/// The state after `event`, and what to do then.
///
/// After a failure nothing runs any more. Otherwise the next statement runs,
/// with a banner exactly when the script holds more than one statement.
pub open spec fn transition(run: Progress, event: Event) -> (Progress, ActionView) {
    if run.failed || event == Event::Failed {
        (Progress { failed: true, ..run }, ActionView::Stop)
    } else if 0 <= run.next < run.statements.len() {
        (
            Progress { next: run.next + 1, ..run },
            ActionView::Run {
                statement: run.statements[run.next],
                banner: run.statements.len() > 1,
            },
        )
    } else {
        (run, ActionView::Stop)
    }
}

/// The actions that a sequence of events leads to, one for each event.
pub open spec fn trace(run: Progress, events: Seq<Event>) -> Seq<ActionView>
    decreases events.len(),
{
    if events.len() == 0 {
        Seq::empty()
    } else {
        let (after, action) = transition(run, events[0]);
        seq![action] + trace(after, events.skip(1))
    }
}

/// Hands out the statements of a script one by one.
pub struct Sequencer {
    statements: Vec<String>,
    next: usize,
    failed: bool,
}

impl View for Sequencer {
    type V = Progress;

    closed spec fn view(&self) -> Progress {
        Progress {
            statements: self.statements@.map_values(|s: String| s@),
            next: self.next as int,
            failed: self.failed,
        }
    }
}

impl Sequencer {
    #[verifier::type_invariant]
    spec fn inv(self) -> bool {
        self.next <= self.statements.len()
    }

    /// A sequencer for `script`, with nothing run yet.
    pub fn new(script: &str, macros: &Vec<Macro>) -> (out: Sequencer)
        ensures
            out@ == initial(script_statements(script@, macros@)),
    {
        Sequencer { statements: statements(script, macros), next: 0, failed: false }
    }

    /// How many statements the script holds.
    pub fn len(&self) -> (n: usize)
        ensures
            n == self@.statements.len(),
    {
        self.statements.len()
    }

    /// Takes note of `event` and says what to do next.
    pub fn advance(&mut self, event: Event) -> (action: Action)
        ensures
            (final(self)@, action@) == transition(old(self)@, event),
    {
        proof {
            use_type_invariant(&*self);
        }
        if self.failed {
            return Action::Stop;
        }
        match event {
            Event::Failed => {
                self.failed = true;
                Action::Stop
            },
            _ => {
                if self.next < self.statements.len() {
                    let statement = self.statements[self.next].clone();
                    let banner = self.statements.len() > 1;
                    self.next = self.next + 1;
                    Action::Run { statement, banner }
                } else {
                    Action::Stop
                }
            },
        }
    }
}

/// The events of a run in which every statement succeeds: the start, then
/// one completion for each of `n` statements.
pub open spec fn smooth_events(n: nat) -> Seq<Event> {
    Seq::new(
        n + 1,
        |i: int|
            if i == 0 {
                Event::Started
            } else {
                Event::Completed
            },
    )
}

/// The actions of a run in which every statement runs once, in source
/// order, all with a banner or all without, and then the run stops.
pub open spec fn smooth_actions(statements: Seq<Seq<char>>) -> Seq<ActionView> {
    Seq::new(
        statements.len() + 1,
        |i: int|
            if i < statements.len() {
                ActionView::Run { statement: statements[i], banner: statements.len() > 1 }
            } else {
                ActionView::Stop
            },
    )
}

proof fn lemma_trace_from(run: Progress, events: Seq<Event>)
    requires
        !run.failed,
        0 <= run.next <= run.statements.len(),
        events.len() == run.statements.len() - run.next + 1,
        forall|i: int| 0 <= i < events.len() ==> #[trigger] events[i] != Event::Failed,
    ensures
        trace(run, events) == smooth_actions(run.statements).skip(run.next),
    decreases events.len(),
{
    let (after, action) = transition(run, events[0]);
    let rest = events.skip(1);
    let want = smooth_actions(run.statements).skip(run.next);
    if run.next < run.statements.len() {
        lemma_trace_from(after, rest);
        assert(trace(run, events) =~= want);
    } else {
        assert(rest.len() == 0);
        assert(trace(after, rest) == Seq::<ActionView>::empty());
        assert(trace(run, events) =~= want);
    }
}

/// Where no statement fails, each statement of the script runs exactly
/// once, in source order, and then the run stops. All the statements get a
/// banner where the script holds more than one, and none gets one where it
/// holds a single statement.
pub proof fn lemma_runs_each_once(statements: Seq<Seq<char>>)
    ensures
        trace(initial(statements), smooth_events(statements.len())) == smooth_actions(
            statements,
        ),
{
    lemma_trace_from(initial(statements), smooth_events(statements.len()));
    assert(smooth_actions(statements).skip(0) == smooth_actions(statements));
}

/// Once a statement has failed, nothing runs any more, whatever follows.
pub proof fn lemma_failure_stops(run: Progress, events: Seq<Event>)
    requires
        run.failed,
    ensures
        trace(run, events) == Seq::new(events.len(), |i: int| ActionView::Stop),
    decreases events.len(),
{
    if events.len() > 0 {
        let (after, action) = transition(run, events[0]);
        lemma_failure_stops(after, events.skip(1));
        assert(trace(run, events) =~= Seq::new(events.len(), |i: int| ActionView::Stop));
    }
}

/// Whether a list of texts reads as the statements of a script: there is at
/// least one, none holds a separator, none holds only white space, and none
/// but the first begins with a line feed.
pub open spec fn are_statements(parts: Seq<Seq<char>>) -> bool {
    &&& parts.len() > 0
    &&& forall|i: int| 0 <= i < parts.len() ==> !(#[trigger] parts[i]).contains(separator())
    &&& forall|i: int| 0 <= i < parts.len() ==> !is_blank(#[trigger] parts[i])
    &&& forall|i: int| 0 < i < parts.len() ==> (#[trigger] parts[i]).first() != '\n'
}

/// In statements joined by separators, no separator stands before a line
/// feed or at the end.
proof fn lemma_separators_plain(parts: Seq<Seq<char>>)
    requires
        are_statements(parts),
    ensures
        forall|i: int|
            0 <= i < joined(parts, separator()).len() && #[trigger] joined(parts, separator())[i]
                == separator() ==> i + 1 < joined(parts, separator()).len() && joined(
                parts,
                separator(),
            )[i + 1] != '\n',
    decreases parts.len(),
{
    let text = joined(parts, separator());
    if parts.len() == 1 {
        assert(!parts[0].contains(separator()));
    } else {
        let init = parts.drop_last();
        let last = parts.last();
        assert(are_statements(init)) by {
            assert forall|i: int| 0 <= i < init.len() implies !(#[trigger] init[i]).contains(
                separator(),
            ) by {
                assert(init[i] == parts[i]);
            }
            assert forall|i: int| 0 <= i < init.len() implies !is_blank(#[trigger] init[i]) by {
                assert(init[i] == parts[i]);
            }
            assert forall|i: int| 0 < i < init.len() implies (#[trigger] init[i]).first()
                != '\n' by {
                assert(init[i] == parts[i]);
            }
        }
        lemma_separators_plain(init);
        let head = joined(init, separator());
        assert(last == parts[parts.len() - 1]);
        assert(last.len() > 0);
        assert(last[0] != '\n') by {
            assert(last.first() == last[0]);
        }
        assert forall|i: int| 0 <= i < text.len() && #[trigger] text[i] == separator() implies i
            + 1 < text.len() && text[i + 1] != '\n' by {
            if i < head.len() {
                assert(head[i] == separator());
                assert(text[i + 1] == head[i + 1]);
            } else if i == head.len() {
                assert(text[i + 1] == last[0]);
            } else {
                assert(text[i] == last[i - head.len() - 1]);
                assert(last.contains(separator()));
            }
        }
    }
}

/// A script written as statements joined by separators holds exactly those
/// statements, in that order.
pub proof fn lemma_script_of_statements(parts: Seq<Seq<char>>)
    requires
        are_statements(parts),
    ensures
        script_statements(joined(parts, separator()), Seq::empty()) == parts,
{
    let text = joined(parts, separator());
    let pat = seq![separator(), '\n'];
    lemma_separators_plain(parts);
    assert(free_of(text, pat)) by {
        assert forall|i: int| 0 <= i <= text.len() implies !pat.is_prefix_of(
            #[trigger] text.skip(i),
        ) by {
            if pat.is_prefix_of(text.skip(i)) {
                assert(text.skip(i).subrange(0, 2)[0] == pat[0]);
                assert(text.skip(i).subrange(0, 2)[1] == pat[1]);
                assert(text[i] == separator());
                assert(text[i + 1] == '\n');
            }
        }
    }
    lemma_replace_nothing(text, pat, seq![separator()]);
    lemma_split_joined(parts, separator());
    lemma_statements_kept(parts);
}

/// A script of statements joined by separators runs each of them exactly
/// once, in source order, and then stops, as long as none fails. Each
/// statement gets a banner where there are several, and a single statement
/// gets none.
pub proof fn lemma_script_runs_each_once(parts: Seq<Seq<char>>)
    requires
        are_statements(parts),
    ensures
        trace(
            initial(script_statements(joined(parts, separator()), Seq::empty())),
            smooth_events(parts.len()),
        ) == smooth_actions(parts),
        parts.len() == 1 ==> smooth_actions(parts)[0] == (ActionView::Run {
            statement: parts[0],
            banner: false,
        }),
        forall|i: int|
            0 <= i < parts.len() && parts.len() > 1 ==> #[trigger] smooth_actions(parts)[i]
                == (ActionView::Run { statement: parts[i], banner: true }),
{
    lemma_script_of_statements(parts);
    lemma_runs_each_once(parts);
}

/// Without macros, texts of which none is blank are all statements.
proof fn lemma_statements_kept(parts: Seq<Seq<char>>)
    requires
        forall|i: int| 0 <= i < parts.len() ==> !is_blank(#[trigger] parts[i]),
    ensures
        statements_of(parts, Seq::empty()) == parts,
    decreases parts.len(),
{
    if parts.len() > 0 {
        assert forall|i: int| 0 <= i < parts.drop_last().len() implies !is_blank(
            #[trigger] parts.drop_last()[i],
        ) by {
            assert(parts.drop_last()[i] == parts[i]);
        }
        lemma_statements_kept(parts.drop_last());
        assert(parts.last() == parts[parts.len() - 1]);
        assert(parts.drop_last().push(parts.last()) == parts);
    } else {
        assert(parts == Seq::<Seq<char>>::empty());
    }
}

} // verus!
