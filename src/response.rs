use vstd::prelude::*;
use vstd::string::StrSliceExecFns;
use vstd::string::StringExecFns;

use crate::matcher::{
    chars_match_at, chars_of, first_char_index, first_occurrence, lemma_first_occurrence_unique,
    occurs_in,
};
use crate::metadata::{inserted, lemma_insert_commutes, Metadata};

verus! {

/// Structured data that goes with a tool's response.
#[derive(Clone, Debug, PartialEq, Eq)]
pub enum ToolResponseData {
    /// A file was read.
    FileRead { path: String, total_lines: Option<usize>, metadata: Metadata },
    /// A file was written.
    FileWrite {
        path: String,
        bytes_written: Option<usize>,
        was_update: Option<bool>,
        metadata: Metadata,
    },
    /// A shell command ran.
    Shell { command: String, exit_code: Option<i32>, metadata: Metadata },
    /// A file was patched.
    Patch { path: String, total_chars: Option<usize>, warning: Option<String>, metadata: Metadata },
    /// Any other tool.
    Generic { metadata: Metadata },
}

impl ToolResponseData {
    /// The metadata of any variant.
    pub open spec fn metadata_of(self) -> Metadata {
        match self {
            ToolResponseData::FileRead { metadata, .. } => metadata,
            ToolResponseData::FileWrite { metadata, .. } => metadata,
            ToolResponseData::Shell { metadata, .. } => metadata,
            ToolResponseData::Patch { metadata, .. } => metadata,
            ToolResponseData::Generic { metadata } => metadata,
        }
    }

    /// The same data with its metadata replaced by `m`.
    pub open spec fn with_metadata_of(self, m: Metadata) -> Self {
        match self {
            ToolResponseData::FileRead { path, total_lines, .. } => ToolResponseData::FileRead {
                path,
                total_lines,
                metadata: m,
            },
            ToolResponseData::FileWrite { path, bytes_written, was_update, .. } => {
                ToolResponseData::FileWrite { path, bytes_written, was_update, metadata: m }
            },
            ToolResponseData::Shell { command, exit_code, .. } => ToolResponseData::Shell {
                command,
                exit_code,
                metadata: m,
            },
            ToolResponseData::Patch { path, total_chars, warning, .. } => ToolResponseData::Patch {
                path,
                total_chars,
                warning,
                metadata: m,
            },
            ToolResponseData::Generic { .. } => ToolResponseData::Generic { metadata: m },
        }
    }

    /// The metadata holds each key at most once.
    pub open spec fn wf(self) -> bool {
        self.metadata_of().wf()
    }

    /// A file-read response for `path`, with nothing else set.
    pub fn file_read(path: String) -> (r: Self)
        ensures
            r matches ToolResponseData::FileRead { path: p, total_lines: None, metadata: m } && p
                == path && m@.len() == 0,
            r.wf(),
    {
        ToolResponseData::FileRead { path, total_lines: None, metadata: Metadata::new() }
    }

    /// A file-write response for `path`, with nothing else set.
    pub fn file_write(path: String) -> (r: Self)
        ensures
            r matches ToolResponseData::FileWrite {
                path: p,
                bytes_written: None,
                was_update: None,
                metadata: m,
            } && p == path && m@.len() == 0,
            r.wf(),
    {
        ToolResponseData::FileWrite {
            path,
            bytes_written: None,
            was_update: None,
            metadata: Metadata::new(),
        }
    }

    /// A shell response for `command`, with nothing else set.
    pub fn shell(command: String) -> (r: Self)
        ensures
            r matches ToolResponseData::Shell { command: c, exit_code: None, metadata: m } && c
                == command && m@.len() == 0,
            r.wf(),
    {
        ToolResponseData::Shell { command, exit_code: None, metadata: Metadata::new() }
    }

    /// A patch response for `path`, with nothing else set.
    pub fn patch(path: String) -> (r: Self)
        ensures
            r matches ToolResponseData::Patch {
                path: p,
                total_chars: None,
                warning: None,
                metadata: m,
            } && p == path && m@.len() == 0,
            r.wf(),
    {
        ToolResponseData::Patch { path, total_chars: None, warning: None, metadata: Metadata::new() }
    }

    /// A generic response with no metadata.
    pub fn generic() -> (r: Self)
        ensures
            r matches ToolResponseData::Generic { metadata: m } && m@.len() == 0,
            r.wf(),
    {
        ToolResponseData::Generic { metadata: Metadata::new() }
    }

    /// Sets `key` to `value` in the metadata, whatever the variant.
    pub fn with_metadata(self, key: String, value: serde_json::Value) -> (r: Self)
        requires
            self.wf(),
        ensures
            r.wf(),
            r.metadata_of()@ == inserted(self.metadata_of()@, key@, value),
            r.with_metadata_of(self.metadata_of()) == self,
    {
        match self {
            ToolResponseData::FileRead { path, total_lines, mut metadata } => {
                metadata.insert(key, value);
                ToolResponseData::FileRead { path, total_lines, metadata }
            },
            ToolResponseData::FileWrite { path, bytes_written, was_update, mut metadata } => {
                metadata.insert(key, value);
                ToolResponseData::FileWrite { path, bytes_written, was_update, metadata }
            },
            ToolResponseData::Shell { command, exit_code, mut metadata } => {
                metadata.insert(key, value);
                ToolResponseData::Shell { command, exit_code, metadata }
            },
            ToolResponseData::Patch { path, total_chars, warning, mut metadata } => {
                metadata.insert(key, value);
                ToolResponseData::Patch { path, total_chars, warning, metadata }
            },
            ToolResponseData::Generic { mut metadata } => {
                metadata.insert(key, value);
                ToolResponseData::Generic { metadata }
            },
        }
    }

    /// Sets the line count of a file-read response; other variants are returned unchanged.
    pub fn with_total_lines(self, total_lines: usize) -> (r: Self)
        ensures
            r == (match self {
                ToolResponseData::FileRead { path, metadata, .. } => ToolResponseData::FileRead {
                    path,
                    total_lines: Some(total_lines),
                    metadata,
                },
                _ => self,
            }),
    {
        match self {
            ToolResponseData::FileRead { path, metadata, .. } => ToolResponseData::FileRead {
                path,
                total_lines: Some(total_lines),
                metadata,
            },
            other => other,
        }
    }

    /// Sets the byte count of a file-write response; other variants are returned unchanged.
    pub fn with_bytes_written(self, bytes_written: usize) -> (r: Self)
        ensures
            r == (match self {
                ToolResponseData::FileWrite { path, was_update, metadata, .. } => {
                    ToolResponseData::FileWrite {
                        path,
                        bytes_written: Some(bytes_written),
                        was_update,
                        metadata,
                    }
                },
                _ => self,
            }),
    {
        match self {
            ToolResponseData::FileWrite { path, was_update, metadata, .. } => {
                ToolResponseData::FileWrite {
                    path,
                    bytes_written: Some(bytes_written),
                    was_update,
                    metadata,
                }
            },
            other => other,
        }
    }

    /// Records whether a file-write response replaced an existing file; other
    /// variants are returned unchanged.
    pub fn with_was_update(self, was_update: bool) -> (r: Self)
        ensures
            r == (match self {
                ToolResponseData::FileWrite { path, bytes_written, metadata, .. } => {
                    ToolResponseData::FileWrite {
                        path,
                        bytes_written,
                        was_update: Some(was_update),
                        metadata,
                    }
                },
                _ => self,
            }),
    {
        match self {
            ToolResponseData::FileWrite { path, bytes_written, metadata, .. } => {
                ToolResponseData::FileWrite {
                    path,
                    bytes_written,
                    was_update: Some(was_update),
                    metadata,
                }
            },
            other => other,
        }
    }

    /// Sets the exit code of a shell response; other variants are returned unchanged.
    pub fn with_exit_code(self, exit_code: i32) -> (r: Self)
        ensures
            r == (match self {
                ToolResponseData::Shell { command, metadata, .. } => ToolResponseData::Shell {
                    command,
                    exit_code: Some(exit_code),
                    metadata,
                },
                _ => self,
            }),
    {
        match self {
            ToolResponseData::Shell { command, metadata, .. } => ToolResponseData::Shell {
                command,
                exit_code: Some(exit_code),
                metadata,
            },
            other => other,
        }
    }

    /// Sets the size of a patch response; other variants are returned unchanged.
    pub fn with_total_chars(self, total_chars: usize) -> (r: Self)
        ensures
            r == (match self {
                ToolResponseData::Patch { path, warning, metadata, .. } => ToolResponseData::Patch {
                    path,
                    total_chars: Some(total_chars),
                    warning,
                    metadata,
                },
                _ => self,
            }),
    {
        match self {
            ToolResponseData::Patch { path, warning, metadata, .. } => ToolResponseData::Patch {
                path,
                total_chars: Some(total_chars),
                warning,
                metadata,
            },
            other => other,
        }
    }

    /// Sets the warning of a patch response; other variants are returned unchanged.
    pub fn with_warning(self, warning: String) -> (r: Self)
        ensures
            r == (match self {
                ToolResponseData::Patch { path, total_chars, metadata, .. } => ToolResponseData::Patch {
                    path,
                    total_chars,
                    warning: Some(warning),
                    metadata,
                },
                _ => self,
            }),
    {
        match self {
            ToolResponseData::Patch { path, total_chars, metadata, .. } => ToolResponseData::Patch {
                path,
                total_chars,
                warning: Some(warning),
                metadata,
            },
            other => other,
        }
    }
}

/// Setting two different metadata keys on a response, one after the other,
/// leaves the same metadata in either order; the rest of the response is
/// untouched by either.
pub proof fn lemma_with_metadata_commutes(
    d: ToolResponseData,
    k1: Seq<char>,
    v1: serde_json::Value,
    k2: Seq<char>,
    v2: serde_json::Value,
)
    requires
        d.wf(),
        k1 != k2,
    ensures
        inserted(inserted(d.metadata_of()@, k1, v1), k2, v2) == inserted(
            inserted(d.metadata_of()@, k2, v2),
            k1,
            v1,
        ),
{
    lemma_insert_commutes(d.metadata_of()@, k1, v1, k2, v2);
}

/// The line that opens and closes a front-matter block.
pub open spec fn fence() -> Seq<char> {
    seq!['-', '-', '-', '\n']
}

/// The closing fence together with the line break that ends the block's last line.
pub open spec fn closing_fence() -> Seq<char> {
    seq!['\n', '-', '-', '-', '\n']
}

/// The block and the content of a text that starts with a front-matter block;
/// the block is everything between the opening fence and the first closing
/// fence after it.
pub open spec fn front_matter_parts(t: Seq<char>) -> Option<(Seq<char>, Seq<char>)> {
    if t.len() >= 4 && t.subrange(0, 4) == fence() {
        let rest = t.subrange(4, t.len() as int);
        if occurs_in(rest, closing_fence()) {
            let e = first_occurrence(rest, closing_fence());
            Some((rest.subrange(0, e), rest.subrange(e + 5, rest.len() as int)))
        } else {
            None
        }
    } else {
        None
    }
}

/// `block` between two fences, followed by `content`.
pub fn frame_front_matter(block: &str, content: &str) -> (r: String)
    ensures
        r@ == fence() + block@ + fence() + content@,
{
    proof {
        reveal_strlit("---\n");
    }
    assert("---\n"@ =~= fence());
    let mut r = String::new();
    r.append("---\n");
    r.append(block);
    r.append("---\n");
    r.append(content);
    r
}

/// Splits `text` into its front-matter block and its content. A text without
/// an opening fence, or without a closing fence after it, has no block and is
/// all content.
pub fn split_front_matter(text: &str) -> (r: (Option<String>, String))
    ensures
        match front_matter_parts(text@) {
            Some((b, c)) => r.0 matches Some(rb) && rb@ == b && r.1@ == c,
            None => r.0 is None && r.1@ == text@,
        },
{
    proof {
        reveal_strlit("---\n");
        reveal_strlit("\n---\n");
    }
    let t = chars_of(text);
    let open = chars_of("---\n");
    assert(open@ =~= fence());
    assert("\n---\n"@ =~= closing_fence());
    if t.len() < 4 || !chars_match_at(&t, &open, 0) {
        return (None, String::from_str(text));
    }
    let n = t.len();
    let rest = text.substring_char(4, n);
    let rest_chars = chars_of(rest);
    let close = chars_of("\n---\n");
    match first_char_index(&rest_chars, &close) {
        Some(e) => {
            proof {
                lemma_first_occurrence_unique(rest@, closing_fence(), e as int);
            }
            let rest_len = n - 4;
            let block = rest.substring_char(0, e);
            let content = rest.substring_char(e + 5, rest_len);
            (Some(String::from_str(block)), String::from_str(content))
        },
        None => (None, String::from_str(text)),
    }
}

} // verus!
