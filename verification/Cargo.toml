[package]
name = "mailroute"
version = "0.1.0"
edition = "2021"
publish = false

[dependencies]
clap = "*"
ldap3 = "*"
lettre = "*"
serde = "*"
serde_derive = "*"
serde_json = "*"
