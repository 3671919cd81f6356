use vstd::prelude::*;

use crate::cell::Cell;
use crate::text::{chars_of, push_str, string_of};

verus! {

/// The kind of an I/O failure, as far as the notifications tell kinds apart.
#[derive(Clone, Copy, Debug, PartialEq, Eq, Structural)]
pub enum IoKind {
    NotFound,
    PermissionDenied,
    Other,
}

/// Why a dataset could not be read.
#[derive(Clone, Debug)]
pub enum DatasetError {
    /// The file is missing or cannot be read.
    Io { kind: IoKind, message: String },
    /// The file's content is unsupported or corrupt.
    Format(String),
    /// The columns of a layer cannot be determined.
    Schema(String),
}

/// One named table of a dataset, as the dataset reader hands it over: its column names and its
/// rows of cells.
#[derive(Clone, Debug)]
pub struct Layer {
    pub name: String,
    pub column_names: Vec<String>,
    pub rows: Vec<Vec<Cell>>,
}

/// Every row has one cell per column.
pub open spec fn rectangular(rows: Seq<Vec<Cell>>, width: nat) -> bool {
    forall|i: int| 0 <= i < rows.len() ==> (#[trigger] rows[i])@.len() == width
}

/// Whether every row of `rows` has `width` cells.
pub fn is_rectangular(rows: &Vec<Vec<Cell>>, width: usize) -> (r: bool)
    ensures
        r == rectangular(rows@, width as nat),
{
    let mut i: usize = 0;
    while i < rows.len()
        invariant
            i <= rows.len(),
            forall|j: int| 0 <= j < i ==> (#[trigger] rows@[j])@.len() == width,
        decreases rows.len() - i,
    {
        if rows[i].len() != width {
            return false;
        }
        i = i + 1;
    }
    true
}

pub open spec fn not_found_text() -> Seq<char> {
    seq!['F', 'i', 'l', 'e', ' ', 'n', 'o', 't', ' ', 'f', 'o', 'u', 'n', 'd', '.']
}

/// What a notification says of an error: a file that does not exist or may not be read is
/// reported as not found.
pub open spec fn error_detail(err: DatasetError) -> Seq<char> {
    match err {
        DatasetError::Io { kind, message } => if kind != IoKind::Other {
            not_found_text()
        } else {
            message@
        },
        DatasetError::Format(message) => message@,
        DatasetError::Schema(message) => message@,
    }
}

/// The message shown for an error: the context, a line break, then what went wrong.
pub fn error_message(context: &str, err: &DatasetError) -> (r: String)
    ensures
        r@ == context@ + seq!['\n'] + error_detail(*err),
{
    let mut out = chars_of(context);
    out.push('\n');
    match err {
        DatasetError::Io { kind, message } => if *kind != IoKind::Other {
            let text = "File not found.";
            proof {
                reveal_strlit("File not found.");
            }
            assert(text@ =~= not_found_text());
            push_str(&mut out, text);
        } else {
            push_str(&mut out, message.as_str());
        },
        DatasetError::Format(message) => push_str(&mut out, message.as_str()),
        DatasetError::Schema(message) => push_str(&mut out, message.as_str()),
    }
    assert(out@ =~= context@ + seq!['\n'] + error_detail(*err));
    string_of(&out)
}

} // verus!
