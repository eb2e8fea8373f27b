//! This library reads. It does not write: the check on its public surface
//! is itself checked here.

/// The identifier declared by a line introducing a public item, if any.
fn public_identifier(line: &str) -> Option<&str> {
    let rest = line.trim().strip_prefix("pub ")?;
    if rest.starts_with('(') {
        return None;
    }
    let mut rest = rest;
    loop {
        let stripped = ["async ", "unsafe ", "extern ", "default "].iter().find_map(|kw| rest.strip_prefix(kw));
        match stripped {
            Some(next) => rest = next.trim_start(),
            None => break,
        }
    }
    let rest = ["fn ", "struct ", "enum ", "trait ", "const ", "static ", "type ", "mod ", "union "]
        .iter()
        .find_map(|kw| rest.strip_prefix(kw))
        .unwrap_or(rest);
    rest.split(|c: char| !(c.is_alphanumeric() || c == '_')).find(|s| !s.is_empty())
}

/// The lower-case words of an identifier, split at underscores and at
/// upper-case letters.
fn words(identifier: &str) -> Vec<String> {
    let mut out = Vec::new();
    let mut current = String::new();
    for ch in identifier.chars() {
        if ch == '_' {
            if !current.is_empty() {
                out.push(std::mem::take(&mut current));
            }
        } else if ch.is_uppercase() && !current.is_empty() {
            out.push(std::mem::take(&mut current));
            current.push(ch.to_ascii_lowercase());
        } else {
            current.push(ch.to_ascii_lowercase());
        }
    }
    if !current.is_empty() {
        out.push(current);
    }
    out
}

#[test]
fn the_read_only_check_would_catch_a_write() {
    assert_eq!(public_identifier("pub fn patch_staged() {"), Some("patch_staged"));
    assert_eq!(public_identifier("pub async fn patch_staged() {"), Some("patch_staged"));
    assert_eq!(public_identifier("pub unsafe fn activate() {"), Some("activate"));
    assert!(words("patch_staged").contains(&"patch".to_owned()));
    assert!(words("ActivateImmediate").contains(&"activate".to_owned()));
    assert_eq!(public_identifier("    fn patch_staged() {"), None);
}
