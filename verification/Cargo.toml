[package]
name = "audioware"
version = "0.1.0"
edition = "2021"
publish = false

[dependencies]
rtrb = "0.3"
rubato = "*"
symphonia = { version = "0.5", default-features = false, features = ["wav", "pcm", "ogg", "vorbis"] }
cpal = "0.18"
libc = "0.2"
