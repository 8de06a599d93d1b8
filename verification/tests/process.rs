use trace_tool::ProcessInfo;

fn process(id: i64, name: &str, label: &str, threads: &[&str]) -> ProcessInfo {
    ProcessInfo {
        id,
        name: name.to_string(),
        label: label.to_string(),
        threads: threads.iter().map(|t| t.to_string()).collect(),
    }
}

#[test]
fn renderer_is_told_by_its_exact_name() {
    assert!(process(1, "Renderer", "", &[]).is_renderer());
    assert!(!process(1, "renderer", "", &[]).is_renderer());
    assert!(!process(1, "Renderer ", "", &[]).is_renderer());
    assert!(!process(1, "Browser", "", &[]).is_renderer());
    assert!(!process(1, "", "", &[]).is_renderer());
}

#[test]
fn renderers_rank_after_the_others() {
    assert_eq!(process(1, "Renderer", "", &[]).name_rank(), 1);
    assert_eq!(process(1, "GPU Process", "", &[]).name_rank(), 0);
    assert_eq!(process(1, "Browser", "", &[]).name_rank(), 0);
}

#[test]
fn one_line_rendering() {
    let p = process(1, "Browser", "x", &["a", "b"]);
    assert_eq!(p.to_string(), "     1 - Browser    ( 2 thread): x");
}

#[test]
fn one_line_rendering_keeps_long_ids_and_names() {
    let p = process(-1234567, "GPU Process", "", &[]);
    assert_eq!(p.to_string(), "-1234567 - GPU Process ( 0 thread): ");
    let threads: Vec<&str> = vec!["t"; 123];
    let q = process(42, "Renderer", "tab", &threads);
    assert_eq!(q.to_string(), "    42 - Renderer   (123 thread): tab");
}

#[test]
fn one_line_rendering_cuts_the_label_at_40_characters() {
    let label = "0123456789012345678901234567890123456789-too-long";
    let p = process(7, "Renderer", label, &["main"]);
    assert_eq!(
        p.to_string(),
        "     7 - Renderer   ( 1 thread): 0123456789012345678901234567890123456789"
    );
    assert_eq!(p.label, label);
    let exact = "0123456789012345678901234567890123456789";
    assert_eq!(
        process(7, "Renderer", exact, &["main"]).to_string(),
        "     7 - Renderer   ( 1 thread): 0123456789012345678901234567890123456789"
    );
}
