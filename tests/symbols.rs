use gitfetch_tui::symbols::{
    extract_identifier_until_paren, extract_method_name, file_extension, is_identifier_like,
};

fn name(line: &str, path: &str) -> Option<String> {
    extract_method_name(line, path)
}

#[test]
fn identifier_rules() {
    assert!(is_identifier_like("foo"));
    assert!(is_identifier_like("_x9"));
    assert!(!is_identifier_like(""));
    assert!(!is_identifier_like("9abc"));
    assert!(!is_identifier_like("a-b"));
    assert!(!is_identifier_like("a b"));
}

#[test]
fn identifier_before_paren_trims_braces() {
    assert_eq!(extract_identifier_until_paren(" run (x)"), Some("run".to_string()));
    assert_eq!(extract_identifier_until_paren("main {"), Some("main".to_string()));
    assert_eq!(extract_identifier_until_paren("a b(x)"), None);
    assert_eq!(extract_identifier_until_paren(""), None);
}

#[test]
fn extension_is_text_after_last_dot() {
    assert_eq!(file_extension("src/main.rs"), "rs");
    assert_eq!(file_extension("a.tar.gz"), "gz");
    assert_eq!(file_extension("Makefile"), "Makefile");
    assert_eq!(file_extension("dir.d/file."), "");
}

#[test]
fn python_definitions() {
    assert_eq!(name("    def run(self):", "a.py"), Some("run".to_string()));
    assert_eq!(name("async def go():", "a.py"), Some("go".to_string()));
    assert_eq!(name("x = def_value()", "a.py"), None);
}

#[test]
fn rust_definitions() {
    assert_eq!(name("pub fn build(x: u8) -> u8 {", "lib.rs"), Some("build".to_string()));
    assert_eq!(name("fn main() {", "main.rs"), Some("main".to_string()));
    assert_eq!(name("    pub(crate) async fn load() {", "x.rs"), Some("load".to_string()));
    assert_eq!(name("let f = 1;", "x.rs"), None);
}

#[test]
fn js_definitions() {
    assert_eq!(name("function draw(a) {", "ui.js"), Some("draw".to_string()));
    assert_eq!(name("async function fetchAll() {", "ui.ts"), Some("fetchAll".to_string()));
    assert_eq!(name("const handler = (e) => {", "ui.tsx"), Some("handler".to_string()));
    assert_eq!(name("const limit = 5;", "ui.jsx"), None);
    assert_eq!(name("const [a, b] = () => 1", "ui.mjs"), None);
}

#[test]
fn go_definitions() {
    assert_eq!(name("func Serve(addr string) error {", "main.go"), Some("Serve".to_string()));
    assert_eq!(name("func (s *Server) Close() error {", "main.go"), Some("Close".to_string()));
    assert_eq!(name("func (s *Server", "main.go"), None);
}

#[test]
fn general_definitions() {
    assert_eq!(name("function helper()", "script.lua"), Some("helper".to_string()));
    assert_eq!(name("def build():", "Rakefile"), Some("build".to_string()));
    assert_eq!(name("fn main() {", "notes.txt"), None);
}
