[package]
name = "unreact"
version = "0.1.0"
edition = "2021"
publish = false

[dependencies]
chrono = "0.4"
const-str = "0.5"
css-minify = "0.3"
dircpy = "0.3"
grass = "0.12"
handlebars = "4"
http = "0.2"
hyper = { version = "0.14", features = ["server", "http1", "tcp"] }
minify-html = "0.10"
notify = "5"
serde_json = "1"
simple-websockets = "0.1"
stilo = "*"
thiserror = "1"
tokio = { version = "1", features = ["rt", "rt-multi-thread", "net"] }
