//! What the editor's notifications mean for the session, on plain values.
use vstd::prelude::*;
use crate::text::{is_prefix, strip_all, views};
use crate::output_format::trimmed;
use crate::z7::Operation;

verus! {

/// A change of lines in an editor buffer.
#[derive(Debug)]
pub struct BufLineChanges {
    pub line_start: u64,
    pub line_end: u64,
    pub buf_id: i64,
    pub content: Vec<String>,
}

impl BufLineChanges {
    /// A buffer change that leaves the bare prompt alone on a line asks for
    /// a retry.
    pub fn operation(&self) -> (r: Option<Operation>)
        ensures
            r is Some <==> self.content@.len() == 1 && self.content@[0]@ == "Enter password: "@,
            r is Some ==> r->0 is Retry,
    {
        if self.content.len() == 1 && crate::text::str_equal(self.content[0].as_str(), "Enter password: ") {
            Some(Operation::Retry)
        } else {
            None
        }
    }
}

/// A line that the user edits to give a password or a path.
pub open spec fn is_marked(l: Seq<char>) -> bool {
    is_prefix("Enter password: "@, l) || is_prefix("Extract to: "@, l)
}

/// Index of the first marked line at or after `k`, or the length.
pub open spec fn first_marked(lines: Seq<Seq<char>>, k: int) -> int
    decreases lines.len() - k,
{
    if k < 0 || k >= lines.len() {
        lines.len() as int
    } else if is_marked(lines[k]) {
        k
    } else {
        first_marked(lines, k + 1)
    }
}

/// The password typed on a prompt line.
pub open spec fn typed_password(l: Seq<char>) -> Seq<char> {
    trimmed(strip_all(l, "Enter password:"@))
}

/// The path typed on an extraction line.
pub open spec fn typed_path(l: Seq<char>) -> Seq<char> {
    trimmed(strip_all(l, "Extract to: "@))
}

proof fn lemma_first_marked(lines: Seq<Seq<char>>, k: int)
    requires
        0 <= k <= lines.len(),
    ensures
        k <= first_marked(lines, k) <= lines.len(),
        first_marked(lines, k) < lines.len() ==> is_marked(lines[first_marked(lines, k)]),
    decreases lines.len() - k,
{
    if k < lines.len() && !is_marked(lines[k]) {
        lemma_first_marked(lines, k + 1);
    }
}

/// The editor's display.
pub struct Nvim;

impl Nvim {
    /// What leaving insert mode on `lines` (those round the cursor) asks
    /// for: the first prompt or extraction line decides, and gives the
    /// password or path typed on it, where one was typed.
    pub fn operation_on_leave(lines: &Vec<String>) -> (r: Option<Operation>)
        ensures
            ({
                let ls = views(lines@);
                let k = first_marked(ls, 0);
                &&& k == ls.len() ==> r is None
                &&& k < ls.len() && is_prefix("Enter password: "@, ls[k]) ==> {
                    &&& (r is Some <==> typed_password(ls[k]).len() > 0)
                    &&& r is Some ==> r->0 is Password && r->0->Password_0@ == typed_password(ls[k])
                }
                &&& k < ls.len() && !is_prefix("Enter password: "@, ls[k]) ==> {
                    &&& (r is Some <==> typed_path(ls[k]).len() > 0)
                    &&& r is Some ==> r->0 is ExtractTo && r->0->ExtractTo_0@ == typed_path(ls[k])
                }
            }),
    {
        let ghost ls = views(lines@);
        proof {
            lemma_first_marked(ls, 0);
        }
        let mut i: usize = 0;
        while i < lines.len()
            invariant
                i <= lines@.len(),
                ls == views(lines@),
                first_marked(ls, i as int) == first_marked(ls, 0),
            decreases lines@.len() - i,
        {
            let line = lines[i].as_str();
            if crate::text::starts_with(line, "Enter password: ") {
                let rest = crate::text::trim_start_matches(line, "Enter password:");
                let pwd = crate::output_format::trim(rest.as_str());
                if pwd.unicode_len() > 0 {
                    return Some(Operation::Password(pwd));
                }
                return None;
            }
            if crate::text::starts_with(line, "Extract to: ") {
                let rest = crate::text::trim_start_matches(line, "Extract to: ");
                let path = crate::output_format::trim(rest.as_str());
                if path.unicode_len() > 0 {
                    return Some(Operation::ExtractTo(path));
                }
                return None;
            }
            i += 1;
        }
        None
    }

    /// The index of the first error line, to be highlighted.
    pub fn error_line(lines: &Vec<String>) -> (r: Option<usize>)
        ensures
            r is None ==> forall|j: int| 0 <= j < lines@.len() ==> !is_prefix("ERROR:"@, #[trigger] lines@[j]@),
            r is Some ==> r->0 < lines@.len() && is_prefix("ERROR:"@, lines@[r->0 as int]@)
                && forall|j: int| 0 <= j < r->0 ==> !is_prefix("ERROR:"@, #[trigger] lines@[j]@),
    {
        let mut i: usize = 0;
        while i < lines.len()
            invariant
                i <= lines@.len(),
                forall|j: int| 0 <= j < i ==> !is_prefix("ERROR:"@, #[trigger] lines@[j]@),
            decreases lines@.len() - i,
        {
            if crate::text::starts_with(lines[i].as_str(), "ERROR:") {
                return Some(i);
            }
            i += 1;
        }
        None
    }

    /// The rows round the cursor's row `row` that leaving insert mode reads:
    /// from the row before it, but not before the first, to the row after.
    pub fn rows_round(row: i64) -> (r: (i64, i64))
        requires
            row < i64::MAX,
        ensures
            r.0 == (if row - 1 > 0 { row - 1 } else { 0 }),
            r.1 == row + 1,
    {
        let from = if row > 1 {
            row - 1
        } else {
            0
        };
        (from, row + 1)
    }
}

} // verus!
