use remini::tool_registry::{builtin_tool_descriptors, format_tool_list};

#[test]
fn descriptors_include_read_only_tools() {
    let names = builtin_tool_descriptors()
        .iter()
        .map(|tool| tool.name)
        .collect::<Vec<_>>();
    assert!(names.contains(&"read_file"));
    assert!(names.contains(&"read_many_files"));
    assert!(names.contains(&"write_file"));
    assert!(names.contains(&"replace"));
    assert!(names.contains(&"grep_search"));
}

#[test]
fn format_tool_list_can_include_descriptions() {
    let output = format_tool_list(true);
    assert!(output.contains("Available tools"));
    assert!(output.contains("read_file - read text content"));
}

#[test]
fn format_tool_list_without_descriptions_is_exact() {
    assert_eq!(
        format_tool_list(false),
        "Available tools:\nglob\ngrep_search\nlist_directory\nread_file\nread_many_files\nwrite_file\nreplace"
    );
    let with = format_tool_list(true);
    assert!(with.starts_with("Available tools:\nglob - match files by wildcard pattern\n"));
    assert!(with.ends_with("\nreplace - replace exact text within a file"));
    assert_eq!(builtin_tool_descriptors().len(), 7);
}
