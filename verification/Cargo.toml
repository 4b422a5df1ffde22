[package]
name = "sqldap"
version = "0.1.0"
edition = "2021"
publish = false

[dependencies]
anyhow = "=1.0.104"
home = "=0.5.12"
ldap3 = "=0.9.4"
rust-ini = "=0.21.3"
simple_logger = "=5.2.0"
sqlparser = "=0.7.0"
term-table = "=1.4.0"
term_size = "=0.3.2"
