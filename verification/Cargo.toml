[package]
name = "muninn"
version = "0.1.0"
edition = "2021"
publish = false

[dependencies]
gdk = "=0.15.4"
gdk-pixbuf = "=0.15.11"
gio = "=0.15.12"
glib = "=0.15.12"
gtk = "=0.15.5"
indicatif = "0.17"
plotters = { version = "=0.3.7", default-features = false, features = ["svg_backend", "line_series", "point_series"] }
rayon = "=1.12.0"
