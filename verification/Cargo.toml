[package]
name = "simple_term_rewriter"
version = "0.1.0"
edition = "2021"
publish = false

[dependencies]
graph_process_manager_core = "=0.3.1"
graphviz_dot_builder = "=0.1.5"
image = { version = "=0.25.10", default-features = false, features = ["png"] }
image_colored_text = "=0.2.0"
maplit = "=1.0.2"
rand = "=0.10.3"
