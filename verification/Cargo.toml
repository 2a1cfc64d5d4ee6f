[package]
name = "yet_another_llm_project_but_better"
version = "0.1.0"
edition = "2021"
publish = false

[dependencies]
quick-xml = "0.28"
regex = "1"
xmltree = "0.10"
serde = { version = "1", features = ["derive"] }
serde_json = "1"
anyhow = "1"
thiserror = "1"
rand = "0.8"
tempfile = "3"
notify = "6"
