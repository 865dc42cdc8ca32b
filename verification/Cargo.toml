[package]
name = "objmesh"
version = "0.1.0"
edition = "2021"
publish = false

[dependencies]
nalgebra = "*"
js-sys = "*"
wasm-bindgen = "*"
wasm-bindgen-futures = "*"
web-sys = { version = "*", features = ["console", "Window", "Document", "Element", "HtmlCanvasElement", "WebGl2RenderingContext", "WebGlBuffer", "WebGlProgram", "WebGlShader", "WebGlUniformLocation", "Response", "Performance"] }
