[package]
name = "bite"
version = "0.1.0"
edition = "2021"
publish = false

[dependencies]
radix_trie = "=0.2.1"
itertools = "=0.10.5"
nix = "=0.26.4"
libc = "0.2"
termios = "=0.3.3"
term = "=0.7.0"
argparse = "=0.2.2"
bincode = "=1.3.3"
glob = "=0.3.4"
