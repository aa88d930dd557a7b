//! The built-in tools: their names, descriptions and requests.

use vstd::prelude::*;
use vstd::string::*;
use crate::text::{chars_of, join, join_from, push_chars, views};
use crate::tools::{DirectoryEntry, FileContent, GrepMatch, ReplaceResult, WriteFileResult};

verus! {

/// A tool's name and what it does.
#[derive(Debug, Clone, Copy, PartialEq, Eq)]
pub struct ToolDescriptor {
    pub name: &'static str,
    pub description: &'static str,
}

/// A call of one tool.
#[derive(Debug, Clone)]
pub enum ToolRequest {
    ReadFile { path: String },
    ReadManyFiles { path: String, max_files: usize },
    WriteFile { path: String, content: String },
    Replace { path: String, old_string: String, new_string: String, allow_multiple: bool },
    ListDirectory { path: String },
    GlobSearch { root: String, pattern: String },
    GrepSearch { root: String, query: String },
}

/// What a tool call gave back.
#[derive(Debug, Clone)]
pub enum ToolResponse {
    ReadFile(String),
    ReadManyFiles(Vec<FileContent>),
    WriteFile(WriteFileResult),
    Replace(ReplaceResult),
    ListDirectory(Vec<DirectoryEntry>),
    GlobSearch(Vec<String>),
    GrepSearch(Vec<GrepMatch>),
}

/// The dispatcher that runs tool requests.
#[derive(Debug, Default, Clone, Copy)]
pub struct ToolRegistry;

/// The built-in tools, in the order they are listed: name, description.
pub open spec fn builtin_tools() -> Seq<(Seq<char>, Seq<char>)> {
    seq![
        ("glob"@, "match files by wildcard pattern"@),
        ("grep_search"@, "search text within files"@),
        ("list_directory"@, "list files and directories"@),
        ("read_file"@, "read text content from a file"@),
        ("read_many_files"@, "read text content from many files"@),
        ("write_file"@, "write text content to a file"@),
        ("replace"@, "replace exact text within a file"@),
    ]
}

pub open spec fn descriptor_view(d: ToolDescriptor) -> (Seq<char>, Seq<char>) {
    (d.name@, d.description@)
}

/// The built-in tools (see [`builtin_tools`]).
pub fn builtin_tool_descriptors() -> (r: Vec<ToolDescriptor>)
    ensures
        r@.map_values(|d: ToolDescriptor| descriptor_view(d)) == builtin_tools(),
{
    let mut r: Vec<ToolDescriptor> = Vec::new();
    r.push(ToolDescriptor { name: "glob", description: "match files by wildcard pattern" });
    r.push(ToolDescriptor { name: "grep_search", description: "search text within files" });
    r.push(ToolDescriptor { name: "list_directory", description: "list files and directories" });
    r.push(ToolDescriptor { name: "read_file", description: "read text content from a file" });
    r.push(
        ToolDescriptor { name: "read_many_files", description: "read text content from many files" },
    );
    r.push(ToolDescriptor { name: "write_file", description: "write text content to a file" });
    r.push(ToolDescriptor { name: "replace", description: "replace exact text within a file" });
    assert(r@.map_values(|d: ToolDescriptor| descriptor_view(d)) =~= builtin_tools());
    r
}

/// One line of the tool list.
pub open spec fn tool_line(t: (Seq<char>, Seq<char>), include_descriptions: bool) -> Seq<char> {
    if include_descriptions {
        t.0 + " - "@ + t.1
    } else {
        t.0
    }
}

/// The tool list: a heading, then one line per tool.
pub open spec fn tool_list(include_descriptions: bool) -> Seq<char> {
    "Available tools:\n"@ + join(
        builtin_tools().map_values(|t: (Seq<char>, Seq<char>)| tool_line(t, include_descriptions)),
        "\n"@,
    )
}

/// Formats the tool list, with or without descriptions.
pub fn format_tool_list(include_descriptions: bool) -> (s: String)
    ensures
        s@ == tool_list(include_descriptions),
{
    let tools = builtin_tool_descriptors();
    let ghost spec_lines = builtin_tools().map_values(
        |t: (Seq<char>, Seq<char>)| tool_line(t, include_descriptions),
    );
    let mut lines: Vec<Vec<char>> = Vec::new();
    let mut i: usize = 0;
    while i < tools.len()
        invariant
            i <= tools@.len(),
            tools@.map_values(|d: ToolDescriptor| descriptor_view(d)) == builtin_tools(),
            spec_lines == builtin_tools().map_values(
                |t: (Seq<char>, Seq<char>)| tool_line(t, include_descriptions),
            ),
            views(lines@) == spec_lines.take(i as int),
        decreases tools@.len() - i,
    {
        let d = tools[i];
        assert(descriptor_view(d) == builtin_tools()[i as int]);
        let mut line = chars_of(d.name);
        if include_descriptions {
            let sep = chars_of(" - ");
            let desc = chars_of(d.description);
            let ghost l0 = line@;
            let mut k: usize = 0;
            while k < sep.len()
                invariant
                    k <= sep@.len(),
                    line@ == l0 + sep@.take(k as int),
                decreases sep@.len() - k,
            {
                line.push(sep[k]);
                k += 1;
                assert(line@ =~= l0 + sep@.take(k as int));
            }
            let ghost l1 = line@;
            let mut k: usize = 0;
            while k < desc.len()
                invariant
                    k <= desc@.len(),
                    line@ == l1 + desc@.take(k as int),
                decreases desc@.len() - k,
            {
                line.push(desc[k]);
                k += 1;
                assert(line@ =~= l1 + desc@.take(k as int));
            }
            assert(sep@.take(sep@.len() as int) =~= sep@);
            assert(desc@.take(desc@.len() as int) =~= desc@);
        }
        assert(line@ == spec_lines[i as int]);
        let ghost before = views(lines@);
        lines.push(line);
        assert(views(lines@) =~= before.push(spec_lines[i as int]));
        assert(spec_lines.take(i + 1) =~= spec_lines.take(i as int).push(spec_lines[i as int]));
        i += 1;
    }
    assert(spec_lines.take(tools@.len() as int) =~= spec_lines);
    let body = join_from(&lines, 0, "\n");
    assert(views(lines@).skip(0) =~= views(lines@));
    let mut s = String::from_str("Available tools:\n");
    push_chars(&mut s, body.as_slice());
    s
}

} // verus!
