//! Error taxonomy of the conversion engine, with the exact user-visible
//! message of each variant.

use vstd::prelude::*;
use vstd::string::*;
use crate::strutil;

verus! {

#[derive(Clone, Debug)]
pub enum ConversionError {
    FileConflict { path: String },
    FileNotFound { path: String },
    UnsupportedFormat { input: String, output: String, reason: String },
    ProcessError { tool: String, exit_code: Option<i32>, stderr: String },
    Cancelled { id: String },
    IoError { message: String },
    InvalidConfig { message: String },
    ThumbnailError { message: String },
    Unknown { message: String },
}

/// True when `i` is the first line break of `s`.
pub open spec fn first_line_break_at(s: Seq<char>, i: int) -> bool {
    0 <= i < s.len() && s[i] == '\n' && forall|k: int| 0 <= k < i ==> s[k] != '\n'
}

/// `t` without one trailing carriage return.
pub open spec fn strip_cr_spec(t: Seq<char>) -> Seq<char> {
    if t.len() > 0 && t.last() == '\r' {
        t.drop_last()
    } else {
        t
    }
}

/// The first line of `s`, as the `lines` iterator of `str` would yield it.
pub open spec fn first_line_spec(s: Seq<char>) -> Seq<char> {
    if exists|i: int| first_line_break_at(s, i) {
        strip_cr_spec(s.subrange(0, choose|i: int| first_line_break_at(s, i)))
    } else {
        s
    }
}

/// Returns the first line of `s` (everything before the first line break,
/// without a trailing carriage return).
pub fn first_line<'a>(s: &'a str) -> (r: &'a str)
    ensures
        r@ == first_line_spec(s@),
{
    let n: usize = s.unicode_len();
    let mut i: usize = 0;
    loop
        invariant
            n == s@.len(),
            i <= n,
            forall|k: int| 0 <= k < i ==> s@[k] != '\n',
        ensures
            i <= n,
            forall|k: int| 0 <= k < i ==> s@[k] != '\n',
            i < n ==> s@[i as int] == '\n',
            i == n ==> !exists|j: int| first_line_break_at(s@, j),
        decreases n - i,
    {
        if i >= n {
            proof {
                assert forall|j: int| !first_line_break_at(s@, j) by {
                    if 0 <= j < s@.len() {
                        assert(s@[j] != '\n');
                    }
                }
            }
            break ;
        }
        if s.get_char(i) == '\n' {
            break ;
        }
        i = i + 1;
    }
    if i == n {
        proof {
            assert(first_line_spec(s@) == s@);
        }
        return s;
    }
    proof {
        assert(first_line_break_at(s@, i as int));
        let j = choose|j: int| first_line_break_at(s@, j);
        assert(s@[j] == '\n');
        assert(j == i as int) by {
            if j < i {
                assert(s@[j] != '\n');
            }
            if j > i {
                assert(s@[i as int] != '\n');
            }
        }
    }
    if i > 0 && s.get_char(i - 1) == '\r' {
        proof {
            assert(s@.subrange(0, i as int).last() == s@[i - 1]);
            assert(s@.subrange(0, i - 1) =~= strip_cr_spec(s@.subrange(0, i as int)));
        }
        s.substring_char(0, i - 1)
    } else {
        proof {
            if i > 0 {
                assert(s@.subrange(0, i as int).last() == s@[i - 1]);
            }
            assert(s@.subrange(0, i as int) =~= strip_cr_spec(s@.subrange(0, i as int)));
        }
        s.substring_char(0, i)
    }
}

/// Debug-style rendering of an optional exit code.
pub open spec fn exit_code_spec(c: Option<i32>) -> Seq<char> {
    match c {
        Some(v) => "Some("@ + strutil::dec_i64_spec(v as int) + ")"@,
        None => "None"@,
    }
}

impl ConversionError {
    /// The user-visible message of each variant.
    pub open spec fn message_spec(self) -> Seq<char> {
        match self {
            ConversionError::FileConflict { path } => "File already exists: "@ + path@,
            ConversionError::FileNotFound { path } => "File not found: "@ + path@,
            ConversionError::UnsupportedFormat { input, output, reason } => "Unsupported format: "@
                + input@ + " -> "@ + output@ + " ("@ + reason@ + ")"@,
            ConversionError::ProcessError { tool, exit_code, stderr } => tool@ + " error (code: "@
                + exit_code_spec(exit_code) + "): "@ + (if stderr@.len() == 0 {
                "Unknown error"@
            } else {
                first_line_spec(stderr@)
            }),
            ConversionError::Cancelled { id } => "Process cancelled: "@ + id@,
            ConversionError::IoError { message } => "IO error: "@ + message@,
            ConversionError::InvalidConfig { message } => "Invalid configuration: "@ + message@,
            ConversionError::ThumbnailError { message } => "Thumbnail error: "@ + message@,
            ConversionError::Unknown { message } => "Unknown error: "@ + message@,
        }
    }

    /// Renders the user-visible message.
    pub fn message(&self) -> (r: String)
        ensures
            r@ == self.message_spec(),
    {
        match self {
            ConversionError::FileConflict { path } => {
                let mut m = String::from_str("File already exists: ");
                m.append(path.as_str());
                m
            },
            ConversionError::FileNotFound { path } => {
                let mut m = String::from_str("File not found: ");
                m.append(path.as_str());
                m
            },
            ConversionError::UnsupportedFormat { input, output, reason } => {
                let mut m = String::from_str("Unsupported format: ");
                m.append(input.as_str());
                m.append(" -> ");
                m.append(output.as_str());
                m.append(" (");
                m.append(reason.as_str());
                m.append(")");
                m
            },
            ConversionError::ProcessError { tool, exit_code, stderr } => {
                let mut m = tool.clone();
                m.append(" error (code: ");
                match exit_code {
                    Some(v) => {
                        m.append("Some(");
                        let digits = strutil::i64_to_dec(*v as i64);
                        m.append(digits.as_str());
                        m.append(")");
                    },
                    None => {
                        m.append("None");
                    },
                }
                m.append("): ");
                if stderr.as_str().unicode_len() == 0 {
                    m.append("Unknown error");
                } else {
                    m.append(first_line(stderr.as_str()));
                }
                m
            },
            ConversionError::Cancelled { id } => {
                let mut m = String::from_str("Process cancelled: ");
                m.append(id.as_str());
                m
            },
            ConversionError::IoError { message } => {
                let mut m = String::from_str("IO error: ");
                m.append(message.as_str());
                m
            },
            ConversionError::InvalidConfig { message } => {
                let mut m = String::from_str("Invalid configuration: ");
                m.append(message.as_str());
                m
            },
            ConversionError::ThumbnailError { message } => {
                let mut m = String::from_str("Thumbnail error: ");
                m.append(message.as_str());
                m
            },
            ConversionError::Unknown { message } => {
                let mut m = String::from_str("Unknown error: ");
                m.append(message.as_str());
                m
            },
        }
    }
}

} // verus!
