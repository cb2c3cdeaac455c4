//! The structured document: line classifiers that claim and reshape the
//! archiver's raw output lines.
use std::ops::Range;
use vstd::prelude::*;
use crate::text::{opt_view, views};

verus! {

/// Scan state over a dashed header line: the ranges closed so far, where the
/// open range starts, and the last character that counts.
pub type DashScan = (Seq<(int, int)>, int, char);

/// One step of the scan, on the character `c` at index `i`. Once four ranges
/// are closed and the fifth run has begun, nothing changes any more: the fifth
/// range runs to the end of the line.
pub open spec fn dash_step(st: DashScan, c: char, i: int) -> DashScan {
    let (done, start, last) = st;
    if done.len() >= 4 && last != ' ' {
        st
    } else if c == ' ' {
        if last == ' ' {
            (done, i + 1, last)
        } else {
            (done.push((start, i)), i + 1, ' ')
        }
    } else {
        (done, start, c)
    }
}

/// The scan state after the first `n` characters of `s`.
pub open spec fn dash_scan(s: Seq<char>, n: nat) -> DashScan
    decreases n,
{
    if n == 0 {
        (Seq::empty(), 0, ' ')
    } else {
        dash_step(dash_scan(s, (n - 1) as nat), s[n - 1], n - 1)
    }
}

/// The five column ranges of a dashed header line: the ranges closed by the
/// scan, then the open one up to the end of the line, then empty ones.
pub open spec fn dash_range(s: Seq<char>, j: int) -> (int, int) {
    let (done, start, _) = dash_scan(s, s.len());
    if j < done.len() {
        done[j]
    } else if j == done.len() {
        (start, s.len() as int)
    } else {
        (0, 0)
    }
}

proof fn lemma_dash_scan_bounds(s: Seq<char>, n: nat)
    requires
        n <= s.len(),
    ensures
        dash_scan(s, n).0.len() <= 4,
        0 <= dash_scan(s, n).1 <= n,
        forall|j: int| 0 <= j < dash_scan(s, n).0.len() ==>
            0 <= (#[trigger] dash_scan(s, n).0[j]).0 <= dash_scan(s, n).0[j].1 < n,
    decreases n,
{
    if n > 0 {
        lemma_dash_scan_bounds(s, (n - 1) as nat);
    }
}

/// The five column ranges of a dashed header line, in characters: each run
/// of non-space characters gives one, the fifth runs to the end of the line.
pub fn parse_dash_line_to_range(line: &str) -> (ra: [Range<usize>; 5])
    ensures
        forall|j: int| 0 <= j < 5 ==> ra@[j].start == dash_range(line@, j).0 && ra@[j].end
            == dash_range(line@, j).1,
{
    let len = line.unicode_len();
    let mut done: Vec<(usize, usize)> = Vec::new();
    let mut start: usize = 0;
    let mut last_c: char = ' ';
    let mut i: usize = 0;
    while i < len
        invariant
            i <= len,
            len == line@.len(),
            dash_scan(line@, i as nat) == (done@.map_values(|r: (usize, usize)| (r.0 as int, r.1 as int)), start as int, last_c),
        decreases len - i,
    {
        proof {
            lemma_dash_scan_bounds(line@, i as nat);
        }
        let c = line.get_char(i);
        if done.len() >= 4 && last_c != ' ' {
        } else if c == ' ' {
            if last_c == ' ' {
                start = i + 1;
            } else {
                done.push((start, i));
                start = i + 1;
                last_c = ' ';
            }
        } else {
            last_c = c;
        }
        proof {
            assert(done@.map_values(|r: (usize, usize)| (r.0 as int, r.1 as int)) =~= dash_step(dash_scan(line@, i as nat), c, i as int).0);
        }
        i += 1;
    }
    proof {
        lemma_dash_scan_bounds(line@, len as nat);
    }
    let n = done.len();
    let r0 = if 0 < n { done[0].0..done[0].1 } else if n == 0 { start..len } else { 0..0 };
    let r1 = if 1 < n { done[1].0..done[1].1 } else if n == 1 { start..len } else { 0..0 };
    let r2 = if 2 < n { done[2].0..done[2].1 } else if n == 2 { start..len } else { 0..0 };
    let r3 = if 3 < n { done[3].0..done[3].1 } else if n == 3 { start..len } else { 0..0 };
    let r4 = if n == 4 { start..len } else { 0..0 };
    let ra = [r0, r1, r2, r3, r4];
    assert(ra@[0] == r0 && ra@[1] == r1 && ra@[2] == r2 && ra@[3] == r3 && ra@[4] == r4);
    ra
}


/// A row of the file table: the columns before the name, and the name.
pub struct FileLine {
    filename: String,
    raw: String,
}

/// The row of `s` cut at the first and fifth column starts `a` and `b`,
/// clamped to the row's length, as (name, columns before it).
pub open spec fn file_line_of(s: Seq<char>, a: int, b: int) -> (Seq<char>, Seq<char>) {
    let hi = if b < s.len() { b } else { s.len() as int };
    let lo = if a < hi { a } else { hi };
    (s.subrange(hi, s.len() as int), s.subrange(lo, hi))
}

impl View for FileLine {
    type V = (Seq<char>, Seq<char>);

    closed spec fn view(&self) -> (Seq<char>, Seq<char>) {
        (self.filename@, self.raw@)
    }
}

/// The displayed row: the columns, the extraction path, then the name.
pub open spec fn file_line_text(f: (Seq<char>, Seq<char>), extract_path: Seq<char>) -> Seq<char> {
    f.1 + extract_path + f.0
}

impl FileLine {
    /// The row as displayed, with `extract_path` put before the name.
    pub fn to_string(&self, extract_path: &str) -> (r: String)
        ensures
            r@ == file_line_text(self@, extract_path@),
    {
        let mut r = self.raw.clone();
        r.append(extract_path);
        r.append(self.filename.as_str());
        r
    }

    /// Cuts a row at the first and fifth column of `tem`; a row shorter than
    /// the template is cut where it ends.
    pub fn from(s: &str, tem: &[Range<usize>; 5]) -> (r: FileLine)
        ensures
            r@ == file_line_of(s@, tem@[0].start as int, tem@[4].start as int),
    {
        let n = s.unicode_len();
        let hi = if tem[4].start < n {
            tem[4].start
        } else {
            n
        };
        let lo = if tem[0].start < hi {
            tem[0].start
        } else {
            hi
        };
        FileLine {
            filename: String::from_str(s.substring_char(hi, n)),
            raw: String::from_str(s.substring_char(lo, hi)),
        }
    }
}

/// What the file table classifier holds, as values.
pub struct FileListView {
    pub files: Seq<(Seq<char>, Seq<char>)>,
    pub header_line: Option<Seq<char>>,
    pub begin_line: Option<Seq<char>>,
    pub end_line: Option<Seq<char>>,
    pub template: Option<(int, int)>,
    pub summary_line: Seq<char>,
    pub capture: bool,
    pub extract_path: Seq<char>,
}

/// The classifier of the file table: a dashed rule opens the table, rows are
/// captured until a second rule, and the line after it is the summary.
pub struct FileListLB {
    inner: Vec<FileLine>,
    header_line: Option<String>,
    begin_line: Option<String>,
    end_line: Option<String>,
    template: Option<[Range<usize>; 5]>,
    summary_line: String,
    capture: bool,
    extract_path: String,
}

impl View for FileListLB {
    type V = FileListView;

    closed spec fn view(&self) -> FileListView {
        FileListView {
            files: self.inner@.map_values(|f: FileLine| f@),
            header_line: opt_view(self.header_line),
            begin_line: opt_view(self.begin_line),
            end_line: opt_view(self.end_line),
            template: match self.template {
                Some(t) => Some((t@[0].start as int, t@[4].start as int)),
                None => None,
            },
            summary_line: self.summary_line@,
            capture: self.capture,
            extract_path: self.extract_path@,
        }
    }
}

pub open spec fn file_list_wf(v: FileListView) -> bool {
    v.capture ==> v.template is Some
}

pub uninterp spec fn trimmed(s: Seq<char>) -> Seq<char>;

/// Relies on `str::trim`: the string without leading and trailing white space.
#[verifier::external_body]
pub(crate) fn trim(s: &str) -> (r: String)
    ensures
        r@ == trimmed(s@),
{
    s.trim().to_string()
}

/// A bookkeeping line that the session feeds to the document itself, which
/// only the password classifier takes.
pub open spec fn is_synthetic(line: Seq<char>) -> bool {
    crate::text::is_prefix("Extract to: "@, line) || crate::text::is_prefix("Extract file: "@, line)
        || crate::text::is_prefix("Input password: "@, line) || crate::text::is_prefix(
        "Password history file: "@,
        line,
    ) || crate::text::is_prefix("Save password: "@, line)
}

fn synthetic(line: &str) -> (r: bool)
    ensures
        r == is_synthetic(line@),
{
    crate::text::starts_with(line, "Extract to: ") || crate::text::starts_with(line, "Extract file: ")
        || crate::text::starts_with(line, "Input password: ") || crate::text::starts_with(
        line,
        "Password history file: ",
    ) || crate::text::starts_with(line, "Save password: ")
}

/// The file table classifier after `line`, and whether it took the line.
pub open spec fn file_list_input(v: FileListView, line: Seq<char>) -> (FileListView, bool) {
    if crate::text::is_prefix("Set extract_path:"@, line) {
        (FileListView { extract_path: trimmed(crate::text::strip_all(line, "Set extract_path:"@)), ..v }, true)
    } else if is_synthetic(line) {
        (v, false)
    } else if crate::text::is_prefix("-----"@, line) {
        if v.begin_line is None {
            let t = dash_range(line, 0).0;
            let f = dash_range(line, 4).0;
            (FileListView { template: Some((t, f)), begin_line: Some(line), capture: true, ..v }, true)
        } else {
            (FileListView { end_line: Some(line), ..v }, true)
        }
    } else if v.capture {
        if v.end_line is Some {
            (FileListView { capture: false, summary_line: line, ..v }, true)
        } else if line.len() == 0 {
            (v, true)
        } else {
            let (a, b) = v.template->0;
            (FileListView { files: v.files.push(file_line_of(line, a, b)), ..v }, true)
        }
    } else if crate::text::contains(line, "Attr"@) {
        (FileListView { header_line: Some(line), ..v }, true)
    } else {
        (v, false)
    }
}

pub open spec fn opt_line(o: Option<Seq<char>>) -> Seq<Seq<char>> {
    match o {
        Some(l) => seq![l],
        None => Seq::empty(),
    }
}

/// The lines of the file table: header, opening rule, rows, closing rule and
/// summary, each where it was seen.
pub open spec fn file_list_output(v: FileListView) -> Seq<Seq<char>> {
    opt_line(v.header_line) + opt_line(v.begin_line) + v.files.map_values(
        |f: (Seq<char>, Seq<char>)| file_line_text(f, v.extract_path),
    ) + match v.end_line {
        Some(e) => seq![e, v.summary_line],
        None => Seq::empty(),
    }
}

impl FileListLB {
    pub open spec fn wf(&self) -> bool {
        file_list_wf(self@)
    }

    pub fn new() -> (r: FileListLB)
        ensures
            r.wf(),
            r@ == fresh_file_list(),
    {
        let r = FileListLB {
            inner: Vec::new(),
            header_line: None,
            begin_line: None,
            end_line: None,
            template: None,
            summary_line: String::new(),
            capture: false,
            extract_path: String::new(),
        };
        assert(r@.files =~= Seq::<(Seq<char>, Seq<char>)>::empty());
        r
    }

    /// The names of the captured rows.
    pub fn files(&self) -> (r: Vec<String>)
        ensures
            views(r@) == self@.files.map_values(|f: (Seq<char>, Seq<char>)| f.0),
    {
        let mut r: Vec<String> = Vec::new();
        let mut i: usize = 0;
        while i < self.inner.len()
            invariant
                i <= self.inner@.len(),
                views(r@) == self@.files.take(i as int).map_values(|f: (Seq<char>, Seq<char>)| f.0),
            decreases self.inner@.len() - i,
        {
            assert(self@.files[i as int] == self.inner@[i as int]@);
            assert(self@.files.take(i + 1) =~= self@.files.take(i as int).push(self@.files[i as int]));
            let ghost r0 = r@;
            r.push(self.inner[i].filename.clone());
            assert(views(r@) =~= views(r0).push(self@.files[i as int].0));
            i += 1;
            assert(views(r@) =~= self@.files.take(i as int).map_values(|f: (Seq<char>, Seq<char>)| f.0));
        }
        assert(self@.files.take(i as int) =~= self@.files);
        r
    }

    pub fn input(&mut self, line: &str) -> (r: bool)
        requires
            old(self).wf(),
        ensures
            final(self).wf(),
            (final(self)@, r) == file_list_input(old(self)@, line@),
    {
        if crate::text::starts_with(line, "Set extract_path:") {
            let rest = crate::text::trim_start_matches(line, "Set extract_path:");
            self.extract_path = trim(rest.as_str());
            proof {
                assert(self@.files =~= old(self)@.files);
            }
            return true;
        }
        if synthetic(line) {
            return false;
        }
        if crate::text::starts_with(line, "-----") {
            if self.begin_line.is_none() {
                self.template = Some(parse_dash_line_to_range(line));
                self.begin_line = Some(String::from_str(line));
                self.capture = true;
            } else {
                self.end_line = Some(String::from_str(line));
            }
            proof {
                assert(self@.files =~= old(self)@.files);
            }
            true
        } else if self.capture {
            if self.end_line.is_some() {
                self.capture = false;
                self.summary_line = String::from_str(line);
            } else if line.unicode_len() == 0 {
            } else {
                let row = match &self.template {
                    Some(t) => FileLine::from(line, t),
                    None => FileLine::from(line, &[0..0, 0..0, 0..0, 0..0, 0..0]),
                };
                self.inner.push(row);
                proof {
                    assert(self@.files =~= old(self)@.files.push(row@));
                }
            }
            proof {
                assert(self@.files =~= file_list_input(old(self)@, line@).0.files);
            }
            true
        } else if crate::text::str_contains(line, "Attr") {
            self.header_line = Some(String::from_str(line));
            proof {
                assert(self@.files =~= old(self)@.files);
            }
            true
        } else {
            false
        }
    }

    pub fn output(&self) -> (r: Vec<String>)
        ensures
            views(r@) == file_list_output(self@),
    {
        let mut r: Vec<String> = Vec::new();
        match &self.header_line {
            Some(l) => r.push(l.clone()),
            None => {},
        }
        match &self.begin_line {
            Some(l) => r.push(l.clone()),
            None => {},
        }
        let ghost head = views(r@);
        assert(head =~= opt_line(self@.header_line) + opt_line(self@.begin_line));
        let mut i: usize = 0;
        while i < self.inner.len()
            invariant
                i <= self.inner@.len(),
                views(r@) == head + self@.files.take(i as int).map_values(
                    |f: (Seq<char>, Seq<char>)| file_line_text(f, self@.extract_path),
                ),
            decreases self.inner@.len() - i,
        {
            assert(self@.files[i as int] == self.inner@[i as int]@);
            assert(self@.files.take(i + 1) =~= self@.files.take(i as int).push(self@.files[i as int]));
            let t = self.inner[i].to_string(self.extract_path.as_str());
            let ghost r0 = r@;
            r.push(t);
            assert(views(r@) =~= views(r0).push(file_line_text(self@.files[i as int], self@.extract_path)));
            i += 1;
            assert(views(r@) =~= head + self@.files.take(i as int).map_values(
                |f: (Seq<char>, Seq<char>)| file_line_text(f, self@.extract_path),
            ));
        }
        assert(self@.files.take(i as int) =~= self@.files);
        match &self.end_line {
            Some(l) => {
                r.push(l.clone());
                r.push(self.summary_line.clone());
            },
            None => {},
        }
        assert(views(r@) =~= file_list_output(self@));
        r
    }
}


/// Index of the first entry of `h`, at or after `j`, that is not before `p`.
pub open spec fn first_not_less(h: Seq<Seq<char>>, p: Seq<char>, j: int) -> int
    decreases h.len() - j,
{
    if j >= h.len() {
        h.len() as int
    } else if !crate::text::str_lt(h[j], p) {
        j
    } else {
        first_not_less(h, p, j + 1)
    }
}

/// `p` put into the ordered `h` before the first entry not before it, unless
/// that entry is `p` itself.
pub open spec fn insert_sorted(h: Seq<Seq<char>>, p: Seq<char>) -> Seq<Seq<char>> {
    let i = first_not_less(h, p, 0);
    if i < h.len() && h[i] == p {
        h
    } else {
        h.insert(i, p)
    }
}

/// The entries of `s` in order, each once.
pub open spec fn sort_dedup(s: Seq<Seq<char>>) -> Seq<Seq<char>>
    decreases s.len(),
{
    if s.len() == 0 {
        s
    } else {
        insert_sorted(sort_dedup(s.drop_last()), s.last())
    }
}

/// The password history after `p` is saved to it: ordered, each entry once.
pub open spec fn save_history(h: Seq<Seq<char>>, p: Seq<char>) -> Seq<Seq<char>> {
    sort_dedup(h.push(p))
}

/// Every entry comes strictly before the ones after it.
pub open spec fn strictly_sorted(h: Seq<Seq<char>>) -> bool {
    forall|i: int, j: int| 0 <= i < j < h.len() ==> crate::text::str_lt(#[trigger] h[i], #[trigger] h[j])
}

proof fn lemma_first_not_less(h: Seq<Seq<char>>, p: Seq<char>, j: int)
    requires
        0 <= j <= h.len(),
    ensures
        j <= first_not_less(h, p, j) <= h.len(),
        forall|k: int| j <= k < first_not_less(h, p, j) ==> crate::text::str_lt(#[trigger] h[k], p),
        first_not_less(h, p, j) < h.len() ==> !crate::text::str_lt(h[first_not_less(h, p, j)], p),
    decreases h.len() - j,
{
    if j < h.len() && crate::text::str_lt(h[j], p) {
        lemma_first_not_less(h, p, j + 1);
    }
}

proof fn lemma_insert_sorted(h: Seq<Seq<char>>, p: Seq<char>)
    requires
        strictly_sorted(h),
    ensures
        strictly_sorted(insert_sorted(h, p)),
        insert_sorted(h, p).to_set() == h.to_set().insert(p),
{
    let i = first_not_less(h, p, 0);
    lemma_first_not_less(h, p, 0);
    if i < h.len() && h[i] == p {
        assert(h.contains(p));
        assert(h.to_set().insert(p) =~= h.to_set());
    } else {
        let r = h.insert(i, p);
        if i < h.len() {
            crate::text::lemma_str_lt_total(h[i], p);
        }
        assert forall|x: int, y: int| 0 <= x < y < r.len() implies crate::text::str_lt(
            #[trigger] r[x],
            #[trigger] r[y],
        ) by {
            if y < i {
            } else if y == i {
            } else if x < i {
                if y - 1 > i {
                    crate::text::lemma_str_lt_transitive(p, h[i], h[y - 1]);
                }
                crate::text::lemma_str_lt_transitive(h[x], p, h[y - 1]);
            } else if x == i {
                if y - 1 > i {
                    crate::text::lemma_str_lt_transitive(p, h[i], h[y - 1]);
                }
            } else {
            }
        }
        assert forall|e: Seq<char>| r.contains(e) <==> h.contains(e) || e == p by {
            if h.contains(e) {
                let k = choose|k: int| 0 <= k < h.len() && h[k] == e;
                if k < i {
                    assert(r[k] == e);
                } else {
                    assert(r[k + 1] == e);
                }
            }
            if r.contains(e) {
                let k = choose|k: int| 0 <= k < r.len() && r[k] == e;
                if k < i {
                    assert(h[k] == e);
                } else if k > i {
                    assert(h[k - 1] == e);
                }
            }
            if e == p {
                assert(r[i] == p);
            }
        }
        assert(r.to_set() =~= h.to_set().insert(p));
    }
}

proof fn lemma_sort_dedup(s: Seq<Seq<char>>)
    ensures
        strictly_sorted(sort_dedup(s)),
        sort_dedup(s).to_set() == s.to_set(),
    decreases s.len(),
{
    if s.len() > 0 {
        let pre = s.drop_last();
        lemma_sort_dedup(pre);
        lemma_insert_sorted(sort_dedup(pre), s.last());
        assert forall|e: Seq<char>| s.contains(e) <==> pre.contains(e) || e == s.last() by {
            if s.contains(e) {
                let k = choose|k: int| 0 <= k < s.len() && s[k] == e;
                if k < s.len() - 1 {
                    assert(pre[k] == e);
                }
            }
            if pre.contains(e) {
                let k = choose|k: int| 0 <= k < pre.len() && pre[k] == e;
                assert(s[k] == e);
            }
            if e == s.last() {
                assert(s[s.len() - 1] == e);
            }
        }
        assert(s.to_set() =~= pre.to_set().insert(s.last()));
    } else {
        assert(s.to_set() =~= Set::<Seq<char>>::empty());
        assert(sort_dedup(s).to_set() =~= Set::<Seq<char>>::empty());
    }
}

/// The saved history is in order, each entry once, and holds exactly the
/// entries it had and the saved password.
pub proof fn lemma_save_history(h: Seq<Seq<char>>, p: Seq<char>)
    ensures
        strictly_sorted(save_history(h, p)),
        save_history(h, p).to_set() == h.to_set().insert(p),
{
    let s = h.push(p);
    lemma_sort_dedup(s);
    assert forall|e: Seq<char>| s.contains(e) <==> h.contains(e) || e == p by {
        if s.contains(e) {
            let k = choose|k: int| 0 <= k < s.len() && s[k] == e;
            if k < h.len() {
                assert(h[k] == e);
            }
        }
        if h.contains(e) {
            let k = choose|k: int| 0 <= k < h.len() && h[k] == e;
            assert(s[k] == e);
        }
        if e == p {
            assert(s[h.len() as int] == e);
        }
    }
    assert(s.to_set() =~= h.to_set().insert(p));
}

fn insert_sorted_vec(h: &mut Vec<String>, p: String)
    ensures
        views(final(h)@) == insert_sorted(views(old(h)@), p@),
{
    let ghost hv = views(h@);
    let mut i: usize = 0;
    while i < h.len() && crate::text::str_less(h[i].as_str(), p.as_str())
        invariant
            i <= h@.len(),
            hv == views(h@),
            first_not_less(hv, p@, i as int) == first_not_less(hv, p@, 0),
        decreases h@.len() - i,
    {
        i += 1;
    }
    if i < h.len() && h[i] == p {
    } else {
        h.insert(i, p);
        assert(views(h@) =~= hv.insert(i as int, p@));
    }
}

/// The sorted, deduplicated history with `p` saved to it.
fn save_history_vec(h: &Vec<String>, p: &str) -> (r: Vec<String>)
    ensures
        views(r@) == save_history(views(h@), p@),
{
    let ghost all = views(h@).push(p@);
    let mut r: Vec<String> = Vec::new();
    let mut i: usize = 0;
    while i < h.len()
        invariant
            i <= h@.len(),
            all == views(h@).push(p@),
            views(r@) == sort_dedup(all.take(i as int)),
        decreases h@.len() - i,
    {
        assert(all.take(i + 1).drop_last() =~= all.take(i as int));
        insert_sorted_vec(&mut r, h[i].clone());
        i += 1;
    }
    assert(all.drop_last() =~= all.take(i as int));
    insert_sorted_vec(&mut r, String::from_str(p));
    r
}

/// What a history file gives, scanned over its first `n` characters: the
/// trimmed non-empty lines completed so far, and where the open line starts.
pub open spec fn history_scan(s: Seq<char>, n: nat) -> (Seq<Seq<char>>, int)
    decreases n,
{
    if n == 0 {
        (Seq::empty(), 0)
    } else {
        let (h, start) = history_scan(s, (n - 1) as nat);
        if s[n - 1] == '\n' {
            (add_entry(h, trimmed(s.subrange(start, n - 1))), n as int)
        } else {
            (h, start)
        }
    }
}

pub open spec fn add_entry(h: Seq<Seq<char>>, t: Seq<char>) -> Seq<Seq<char>> {
    if t.len() > 0 {
        h.push(t)
    } else {
        h
    }
}

/// The entries of a history file: its lines, trimmed, without the empty ones.
pub open spec fn history_of(s: Seq<char>) -> Seq<Seq<char>> {
    let (h, start) = history_scan(s, s.len());
    add_entry(h, trimmed(s.subrange(start, s.len() as int)))
}

proof fn lemma_history_scan(s: Seq<char>, n: nat)
    requires
        n <= s.len(),
    ensures
        0 <= history_scan(s, n).1 <= n,
    decreases n,
{
    if n > 0 {
        lemma_history_scan(s, (n - 1) as nat);
    }
}

fn push_entry(h: &mut Vec<String>, s: &str, from: usize, to: usize)
    requires
        from <= to <= s@.len(),
    ensures
        views(final(h)@) == add_entry(views(old(h)@), trimmed(s@.subrange(from as int, to as int))),
{
    let t = trim(s.substring_char(from, to));
    if t.unicode_len() > 0 {
        let ghost h0 = views(h@);
        h.push(t);
        assert(views(h@) =~= h0.push(t@));
    }
}

/// The entries of the history file `content`.
pub fn parse_history(content: &str) -> (r: Vec<String>)
    ensures
        views(r@) == history_of(content@),
{
    let n = content.unicode_len();
    let mut r: Vec<String> = Vec::new();
    let mut start: usize = 0;
    let mut i: usize = 0;
    while i < n
        invariant
            i <= n,
            n == content@.len(),
            history_scan(content@, i as nat) == (views(r@), start as int),
        decreases n - i,
    {
        proof {
            lemma_history_scan(content@, i as nat);
        }
        if content.get_char(i) == '\n' {
            push_entry(&mut r, content, start, i);
            start = i + 1;
        }
        i += 1;
    }
    proof {
        lemma_history_scan(content@, n as nat);
    }
    push_entry(&mut r, content, start, n);
    r
}

/// The line that offers the history for selection.
pub open spec fn history_line(h: Seq<Seq<char>>) -> Seq<char> {
    "select password use [Ctrl+x]: "@ + crate::text::join(h, " | "@)
}

/// The password classifier's lines after a history of entries `h` is loaded:
/// an earlier offer is replaced, and the new one follows the prompt.
pub open spec fn load_history_lines(inner: Seq<Seq<char>>, h: Seq<Seq<char>>) -> Seq<Seq<char>> {
    (if inner.len() > 1 {
        inner.drop_last()
    } else {
        inner
    }).push(history_line(h))
}

/// The password classifier after `line`: (prompt lines, history, taken).
pub open spec fn password_input(inner: Seq<Seq<char>>, hist: Seq<Seq<char>>, line: Seq<char>) -> (
    Seq<Seq<char>>,
    Seq<Seq<char>>,
    bool,
) {
    let prompt = crate::text::is_prefix("Enter password"@, line) || crate::text::is_prefix(
        "Input password"@,
        line,
    );
    let inner1 = if prompt && inner.len() == 0 {
        seq![Seq::empty()]
    } else {
        inner
    };
    if crate::text::is_prefix("Password history file: "@, line) {
        (inner1, hist, true)
    } else if crate::text::is_prefix("Enter password"@, line) {
        (inner1.update(0, "Enter password: "@), hist, true)
    } else if crate::text::is_prefix("Input password"@, line) {
        (
            inner1.update(
                0,
                "Enter password: "@ + crate::text::strip_all(line, "Input password: "@),
            ),
            hist,
            true,
        )
    } else if crate::text::is_prefix("Save password"@, line) && inner1.len() >= 2 {
        (inner1, save_history(hist, crate::text::strip_all(line, "Save password: "@)), true)
    } else {
        (inner1, hist, false)
    }
}

/// What the password classifier holds: prompt lines, history, and the
/// archive and extraction path lines last fed.
pub type PasswordView = (Seq<Seq<char>>, Seq<Seq<char>>, Option<Seq<char>>, Option<Seq<char>>);

/// The password classifier after `line`: the archive and extraction path
/// lines replace the earlier ones; other lines go to the prompt.
pub open spec fn password_step(v: PasswordView, line: Seq<char>) -> (PasswordView, bool) {
    if crate::text::is_prefix("Extract to: "@, line) {
        ((v.0, v.1, v.2, Some(line)), true)
    } else if crate::text::is_prefix("Extract file: "@, line) {
        ((v.0, v.1, Some(line), v.3), true)
    } else {
        let (i, h, taken) = password_input(v.0, v.1, line);
        ((i, h, v.2, v.3), taken)
    }
}

/// The lines of the password classifier: archive, extraction path, prompt.
pub open spec fn password_output(v: PasswordView) -> Seq<Seq<char>> {
    opt_line(v.2) + opt_line(v.3) + v.0
}

/// The classifier of the archive and extraction path lines, the password
/// prompt and the password history.
pub struct PasswordLB {
    inner: Vec<String>,
    password_history: Vec<String>,
    file_line: Option<String>,
    extract_line: Option<String>,
}

impl View for PasswordLB {
    type V = PasswordView;

    closed spec fn view(&self) -> PasswordView {
        (views(self.inner@), views(self.password_history@), opt_view(self.file_line), opt_view(self.extract_line))
    }
}

impl PasswordLB {
    pub fn new() -> (r: PasswordLB)
        ensures
            r@ == (Seq::<Seq<char>>::empty(), Seq::<Seq<char>>::empty(), None::<Seq<char>>, None::<Seq<char>>),
    {
        let r = PasswordLB { inner: Vec::new(), password_history: Vec::new(), file_line: None, extract_line: None };
        assert(r@.0 =~= Seq::<Seq<char>>::empty());
        assert(r@.1 =~= Seq::<Seq<char>>::empty());
        r
    }

    pub fn input(&mut self, line: &str) -> (r: bool)
        ensures
            (final(self)@, r) == password_step(old(self)@, line@),
    {
        if crate::text::starts_with(line, "Extract to: ") {
            self.extract_line = Some(String::from_str(line));
            return true;
        }
        if crate::text::starts_with(line, "Extract file: ") {
            self.file_line = Some(String::from_str(line));
            return true;
        }
        let prompt = crate::text::starts_with(line, "Enter password") || crate::text::starts_with(
            line,
            "Input password",
        );
        if prompt && self.inner.len() == 0 {
            self.inner.push(String::new());
            assert(views(self.inner@) =~= seq![Seq::<char>::empty()]);
        }
        let ghost inner1 = views(self.inner@);
        if crate::text::starts_with(line, "Password history file: ") {
            true
        } else if crate::text::starts_with(line, "Enter password") {
            self.inner.set(0, String::from_str("Enter password: "));
            assert(views(self.inner@) =~= inner1.update(0, "Enter password: "@));
            true
        } else if crate::text::starts_with(line, "Input password") {
            let pwd = crate::text::trim_start_matches(line, "Input password: ");
            let mut l = String::from_str("Enter password: ");
            l.append(pwd.as_str());
            self.inner.set(0, l);
            assert(views(self.inner@) =~= inner1.update(0, l@));
            true
        } else if crate::text::starts_with(line, "Save password") && self.inner.len() >= 2 {
            let pwd = crate::text::trim_start_matches(line, "Save password: ");
            self.password_history = save_history_vec(&self.password_history, pwd.as_str());
            true
        } else {
            false
        }
    }

    /// Takes the entries of a history file's `content` as the history, and
    /// offers them below the prompt.
    pub fn load_history(&mut self, content: &str)
        ensures
            final(self)@.1 == history_of(content@),
            final(self)@.0 == load_history_lines(old(self)@.0, history_of(content@)),
            final(self)@.2 == old(self)@.2,
            final(self)@.3 == old(self)@.3,
    {
        self.password_history = parse_history(content);
        let ghost inner0 = views(self.inner@);
        if self.inner.len() > 1 {
            self.inner.pop();
            assert(views(self.inner@) =~= inner0.drop_last());
        }
        let ghost inner1 = views(self.inner@);
        let mut l = String::from_str("select password use [Ctrl+x]: ");
        let joined = crate::text::join_strings(&self.password_history, " | ");
        l.append(joined.as_str());
        self.inner.push(l);
        assert(views(self.inner@) =~= inner1.push(history_line(history_of(content@))));
    }

    /// The history as the lines of a file.
    pub fn history_text(&self) -> (r: String)
        ensures
            r@ == crate::text::join(self@.1, "\n"@),
    {
        crate::text::join_strings(&self.password_history, "\n")
    }

    pub fn output(&self) -> (r: Vec<String>)
        ensures
            views(r@) == password_output(self@),
    {
        let mut r: Vec<String> = Vec::new();
        match &self.file_line {
            Some(l) => r.push(l.clone()),
            None => {},
        }
        match &self.extract_line {
            Some(l) => r.push(l.clone()),
            None => {},
        }
        let ghost head = views(r@);
        let mut rest = self.inner.clone();
        r.append(&mut rest);
        assert(views(r@) =~= password_output(self@));
        r
    }
}


/// The banner at the top of the document.
pub const TITLE: &'static str = "7Z-VUI, Shortcuts: `space+c`: execute extract|add; `space+q`: Quit this program; `space+r`: Retry";


/// Takes the first line that holds `expression`, once.
pub struct CaptureLB {
    inner: String,
    done: bool,
    expression: String,
}

impl View for CaptureLB {
    type V = (Seq<char>, bool, Seq<char>);

    closed spec fn view(&self) -> (Seq<char>, bool, Seq<char>) {
        (self.inner@, self.done, self.expression@)
    }
}

impl CaptureLB {
    pub fn new(expression: &str) -> (r: CaptureLB)
        ensures
            r@ == (Seq::<char>::empty(), false, expression@),
    {
        CaptureLB { inner: String::new(), done: false, expression: String::from_str(expression) }
    }

    pub fn new_boxed(expression: &str) -> (r: LineBuilder)
        ensures
            r@ == LbView::Capture(Seq::<char>::empty(), false, expression@),
    {
        LineBuilder::Capture(CaptureLB::new(expression))
    }
}

/// Takes the `Type = ` line and then the `Method = ` line, joined by a tab.
pub struct PropertyLB {
    inner: String,
    done: bool,
}

impl View for PropertyLB {
    type V = (Seq<char>, bool);

    closed spec fn view(&self) -> (Seq<char>, bool) {
        (self.inner@, self.done)
    }
}

/// Takes the first line that begins with `ERROR:`, once.
pub struct ErrorLB {
    inner: String,
    done: bool,
}

impl View for ErrorLB {
    type V = (Seq<char>, bool);

    closed spec fn view(&self) -> (Seq<char>, bool) {
        (self.inner@, self.done)
    }
}

/// What a classifier holds, as values.
pub enum LbView {
    Title,
    Empty,
    Capture(Seq<char>, bool, Seq<char>),
    Password(Seq<Seq<char>>, Seq<Seq<char>>, Option<Seq<char>>, Option<Seq<char>>),
    Property(Seq<char>, bool),
    Error(Seq<char>, bool),
}

/// A classifier of raw lines: each takes a kind of line and renders it.
pub enum LineBuilder {
    Title,
    Empty,
    Capture(CaptureLB),
    Password(PasswordLB),
    Property(PropertyLB),
    Error(ErrorLB),
}

impl View for LineBuilder {
    type V = LbView;

    open spec fn view(&self) -> LbView {
        match self {
            LineBuilder::Title => LbView::Title,
            LineBuilder::Empty => LbView::Empty,
            LineBuilder::Capture(c) => LbView::Capture(c@.0, c@.1, c@.2),
            LineBuilder::Password(p) => LbView::Password(p@.0, p@.1, p@.2, p@.3),
            LineBuilder::Property(p) => LbView::Property(p@.0, p@.1),
            LineBuilder::Error(e) => LbView::Error(e@.0, e@.1),
        }
    }
}

/// A classifier after `line`, and whether it took the line.
pub open spec fn lb_input(v: LbView, line: Seq<char>) -> (LbView, bool) {
    match v {
        LbView::Title => (v, false),
        LbView::Empty => (v, false),
        LbView::Capture(inner, done, expr) => {
            if !done && !is_synthetic(line) && crate::text::contains(line, expr) {
                (LbView::Capture(inner + line, true, expr), true)
            } else {
                (v, false)
            }
        },
        LbView::Password(inner, hist, f, e) => {
            let (w, taken) = password_step((inner, hist, f, e), line);
            (LbView::Password(w.0, w.1, w.2, w.3), taken)
        },
        LbView::Property(inner, done) => {
            if done {
                (v, false)
            } else if crate::text::is_prefix("Type = "@, line) {
                (LbView::Property(inner + line, false), true)
            } else if crate::text::is_prefix("Method = "@, line) {
                (LbView::Property(inner + "\t"@ + line, true), true)
            } else {
                (v, false)
            }
        },
        LbView::Error(inner, done) => {
            if !done && crate::text::is_prefix("ERROR:"@, line) {
                (LbView::Error(inner + line, true), true)
            } else {
                (v, false)
            }
        },
    }
}

/// The lines a classifier renders.
pub open spec fn lb_output(v: LbView) -> Seq<Seq<char>> {
    match v {
        LbView::Title => seq![TITLE@],
        LbView::Empty => seq![Seq::empty()],
        LbView::Capture(inner, _, _) => seq![inner],
        LbView::Password(inner, hist, f, e) => password_output((inner, hist, f, e)),
        LbView::Property(inner, _) => seq![inner],
        LbView::Error(inner, _) => seq![inner],
    }
}

/// A classifier that does not take a line stays as it was.
pub proof fn lemma_untaken_unchanged(v: LbView, line: Seq<char>)
    ensures
        !lb_input(v, line).1 ==> lb_input(v, line).0 == v,
{
    if let LbView::Password(inner, hist, _, _) = v {
        let prompt = crate::text::is_prefix("Enter password"@, line) || crate::text::is_prefix(
            "Input password"@,
            line,
        );
        if prompt {
            assert(password_input(inner, hist, line).2);
        }
    }
}

impl LineBuilder {
    pub fn input(&mut self, line: &str) -> (r: bool)
        ensures
            (final(self)@, r) == lb_input(old(self)@, line@),
    {
        match self {
            LineBuilder::Title => false,
            LineBuilder::Empty => false,
            LineBuilder::Capture(c) => {
                if !c.done && !synthetic(line) && crate::text::str_contains(line, c.expression.as_str()) {
                    c.inner.append(line);
                    c.done = true;
                    true
                } else {
                    false
                }
            },
            LineBuilder::Password(p) => p.input(line),
            LineBuilder::Property(p) => {
                if p.done {
                    false
                } else if crate::text::starts_with(line, "Type = ") {
                    p.inner.append(line);
                    true
                } else if crate::text::starts_with(line, "Method = ") {
                    p.inner.append("\t");
                    p.inner.append(line);
                    p.done = true;
                    true
                } else {
                    false
                }
            },
            LineBuilder::Error(e) => {
                if !e.done && crate::text::starts_with(line, "ERROR:") {
                    e.inner.append(line);
                    e.done = true;
                    true
                } else {
                    false
                }
            },
        }
    }

    pub fn output(&self) -> (r: Vec<String>)
        ensures
            views(r@) == lb_output(self@),
    {
        let r = match self {
            LineBuilder::Title => vec![String::from_str(TITLE)],
            LineBuilder::Empty => vec![String::new()],
            LineBuilder::Capture(c) => vec![c.inner.clone()],
            LineBuilder::Password(p) => p.output(),
            LineBuilder::Property(p) => vec![p.inner.clone()],
            LineBuilder::Error(e) => vec![e.inner.clone()],
        };
        assert(views(r@) =~= lb_output(self@));
        r
    }
}


impl PropertyLB {
    pub fn new() -> (r: PropertyLB)
        ensures
            r@ == (Seq::<char>::empty(), false),
    {
        PropertyLB { inner: String::new(), done: false }
    }
}

impl ErrorLB {
    pub fn new() -> (r: ErrorLB)
        ensures
            r@ == (Seq::<char>::empty(), false),
    {
        ErrorLB { inner: String::new(), done: false }
    }
}

/// Which classifier took a line.
#[derive(PartialEq, Eq, Structural, Clone, Copy, Debug)]
pub enum Claim {
    FileList,
    Builder(usize),
    Nobody,
}

/// What the classifiers of a document hold, as values.
pub struct LinesView {
    pub builders: Seq<LbView>,
    pub file_list: FileListView,
}

/// The classifiers from index `k` on after `line`: the first that takes it
/// is updated, and its index returned.
pub open spec fn lbs_input(lbs: Seq<LbView>, line: Seq<char>, k: int) -> (Seq<LbView>, Claim)
    decreases lbs.len() - k,
{
    if k < 0 || k >= lbs.len() {
        (lbs, Claim::Nobody)
    } else if lb_input(lbs[k], line).1 {
        (lbs.update(k, lb_input(lbs[k], line).0), Claim::Builder(k as usize))
    } else {
        lbs_input(lbs, line, k + 1)
    }
}

/// The classifiers after `line`: the file table is offered it first, then
/// each classifier in order until one takes it.
pub open spec fn lines_input(v: LinesView, line: Seq<char>) -> (LinesView, Claim) {
    let (f, taken) = file_list_input(v.file_list, line);
    if taken {
        (LinesView { file_list: f, ..v }, Claim::FileList)
    } else {
        let (b, c) = lbs_input(v.builders, line, 0);
        (LinesView { builders: b, ..v }, c)
    }
}

pub open spec fn lbs_output(lbs: Seq<LbView>) -> Seq<Seq<char>>
    decreases lbs.len(),
{
    if lbs.len() == 0 {
        Seq::empty()
    } else {
        lbs_output(lbs.drop_last()) + lb_output(lbs.last())
    }
}

/// All rendered lines: each classifier's in order, then the file table's.
pub open spec fn lines_output(v: LinesView) -> Seq<Seq<char>> {
    lbs_output(v.builders) + file_list_output(v.file_list)
}

/// `s` with each run of equal neighbouring lines kept once.
pub open spec fn dedup(s: Seq<Seq<char>>) -> Seq<Seq<char>>
    decreases s.len(),
{
    if s.len() <= 1 {
        s
    } else if s.last() == s[s.len() - 2] {
        dedup(s.drop_last())
    } else {
        dedup(s.drop_last()).push(s.last())
    }
}

pub open spec fn no_adjacent_repeats(s: Seq<Seq<char>>) -> bool {
    forall|i: int| 0 < i < s.len() ==> #[trigger] s[i] != s[i - 1]
}

/// `dedup` leaves no two equal lines next to each other, and ends with the
/// last line of its input.
pub proof fn lemma_dedup(s: Seq<Seq<char>>)
    ensures
        no_adjacent_repeats(dedup(s)),
        s.len() > 0 ==> dedup(s).len() > 0 && dedup(s).last() == s.last(),
        s.len() == 0 ==> dedup(s).len() == 0,
    decreases s.len(),
{
    if s.len() > 1 {
        lemma_dedup(s.drop_last());
    }
}

pub open spec fn fresh_file_list() -> FileListView {
    FileListView {
        files: Seq::empty(),
        header_line: None,
        begin_line: None,
        end_line: None,
        template: None,
        summary_line: Seq::empty(),
        capture: false,
        extract_path: Seq::empty(),
    }
}

/// The classifiers of the list layout, in order.
pub open spec fn list_layout() -> Seq<LbView> {
    seq![
        LbView::Title,
        LbView::Empty,
        LbView::Capture(Seq::empty(), false, "Listing archive:"@),
        LbView::Capture(Seq::empty(), false, "file,"@),
        LbView::Empty,
        LbView::Password(Seq::empty(), Seq::empty(), None, None),
        LbView::Empty,
        LbView::Property(Seq::empty(), false),
        LbView::Empty,
        LbView::Error(Seq::empty(), false),
        LbView::Empty,
    ]
}

/// The classifiers of the extract layout, in order.
pub open spec fn extract_layout() -> Seq<LbView> {
    seq![
        LbView::Title,
        LbView::Empty,
        LbView::Capture(Seq::empty(), false, "Extracting archive:"@),
        LbView::Capture(Seq::empty(), false, "file,"@),
        LbView::Empty,
        LbView::Password(Seq::empty(), Seq::empty(), None, None),
        LbView::Empty,
        LbView::Property(Seq::empty(), false),
        LbView::Empty,
        LbView::Capture(Seq::empty(), false, "Everything"@),
        LbView::Error(Seq::empty(), false),
        LbView::Empty,
    ]
}

/// The index of the first password classifier at or after `k`, or the
/// length where there is none.
pub open spec fn first_password(lbs: Seq<LbView>, k: int) -> int
    decreases lbs.len() - k,
{
    if k < 0 || k >= lbs.len() {
        lbs.len() as int
    } else if lbs[k] is Password {
        k
    } else {
        first_password(lbs, k + 1)
    }
}

/// The classifiers after a history file's `content` is loaded into the first
/// password classifier.
pub open spec fn lines_load_history(v: LinesView, content: Seq<char>) -> LinesView {
    let k = first_password(v.builders, 0);
    if k < v.builders.len() {
        let inner = v.builders[k]->Password_0;
        LinesView {
            builders: v.builders.update(
                k,
                LbView::Password(
                    load_history_lines(inner, history_of(content)),
                    history_of(content),
                    v.builders[k]->Password_2,
                    v.builders[k]->Password_3,
                ),
            ),
            ..v
        }
    } else {
        v
    }
}

/// The ordered classifiers of one layout, and the file table classifier
/// that outlives layout changes.
pub struct Lines {
    inner: Vec<LineBuilder>,
    file_list_lb: FileListLB,
}

impl View for Lines {
    type V = LinesView;

    closed spec fn view(&self) -> LinesView {
        LinesView {
            builders: self.inner@.map_values(|b: LineBuilder| b@),
            file_list: self.file_list_lb@,
        }
    }
}

impl Lines {
    pub open spec fn wf(&self) -> bool {
        file_list_wf(self@.file_list) && self@.builders.len() <= usize::MAX
    }

    pub fn new() -> (r: Lines)
        ensures
            r.wf(),
            r@.builders.len() == 0,
            r@.file_list == fresh_file_list(),
    {
        let r = Lines { inner: Vec::new(), file_list_lb: FileListLB::new() };
        assert(r@.builders =~= Seq::<LbView>::empty());
        r
    }

    pub fn new_list() -> (r: Lines)
        ensures
            r.wf(),
            r@.builders == list_layout(),
            r@.file_list == fresh_file_list(),
    {
        let inner = vec![
            LineBuilder::Title,
            LineBuilder::Empty,
            CaptureLB::new_boxed("Listing archive:"),
            CaptureLB::new_boxed("file,"),
            LineBuilder::Empty,
            LineBuilder::Password(PasswordLB::new()),
            LineBuilder::Empty,
            LineBuilder::Property(PropertyLB::new()),
            LineBuilder::Empty,
            LineBuilder::Error(ErrorLB::new()),
            LineBuilder::Empty,
        ];
        let r = Lines { inner, file_list_lb: FileListLB::new() };
        assert(r@.builders =~= list_layout());
        r
    }

    pub fn new_extract() -> (r: Lines)
        ensures
            r.wf(),
            r@.builders == extract_layout(),
            r@.file_list == fresh_file_list(),
    {
        let inner = vec![
            LineBuilder::Title,
            LineBuilder::Empty,
            CaptureLB::new_boxed("Extracting archive:"),
            CaptureLB::new_boxed("file,"),
            LineBuilder::Empty,
            LineBuilder::Password(PasswordLB::new()),
            LineBuilder::Empty,
            LineBuilder::Property(PropertyLB::new()),
            LineBuilder::Empty,
            CaptureLB::new_boxed("Everything"),
            LineBuilder::Error(ErrorLB::new()),
            LineBuilder::Empty,
        ];
        let r = Lines { inner, file_list_lb: FileListLB::new() };
        assert(r@.builders =~= extract_layout());
        r
    }

    /// Offers `line` to the file table, then to each classifier in order,
    /// until one takes it.
    pub fn input(&mut self, line: &str) -> (r: Claim)
        requires
            old(self).wf(),
        ensures
            final(self).wf(),
            (final(self)@, r) == lines_input(old(self)@, line@),
    {
        if self.file_list_lb.input(line) {
            return Claim::FileList;
        }
        let ghost b0 = self@.builders;
        let mut k: usize = 0;
        while k < self.inner.len()
            invariant
                k <= self.inner@.len(),
                self@.builders == b0,
                self@.file_list == old(self)@.file_list,
                !file_list_input(old(self)@.file_list, line@).1,
                b0 == old(self)@.builders,
                self.wf(),
                lbs_input(b0, line@, k as int) == lbs_input(b0, line@, 0),
            decreases self.inner@.len() - k,
        {
            let mut lb = self.inner.remove(k);
            assert(lb@ == b0[k as int]);
            proof {
                lemma_untaken_unchanged(lb@, line@);
            }
            let taken = lb.input(line);
            self.inner.insert(k, lb);
            if taken {
                assert(self@.builders =~= b0.update(k as int, lb@));
                assert(lbs_input(b0, line@, k as int) == (b0.update(k as int, lb@), Claim::Builder(k)));

                return Claim::Builder(k);
            }
            assert(self@.builders =~= b0);
            k += 1;
        }
        Claim::Nobody
    }

    pub fn lines(&self) -> (r: Vec<String>)
        ensures
            views(r@) == lines_output(self@),
    {
        let mut r: Vec<String> = Vec::new();
        let mut i: usize = 0;
        while i < self.inner.len()
            invariant
                i <= self.inner@.len(),
                views(r@) == lbs_output(self@.builders.take(i as int)),
            decreases self.inner@.len() - i,
        {
            let mut out = self.inner[i].output();
            let ghost r0 = views(r@);
            let ghost o = views(out@);
            r.append(&mut out);
            assert(views(r@) =~= r0 + o);
            assert(self@.builders.take(i + 1).drop_last() =~= self@.builders.take(i as int));
            i += 1;
        }
        assert(self@.builders.take(i as int) =~= self@.builders);
        let mut tail = self.file_list_lb.output();
        let ghost r0 = views(r@);
        let ghost o = views(tail@);
        r.append(&mut tail);
        assert(views(r@) =~= r0 + o);
        r
    }
}


/// Where the classifiers from `j` on take a line, what the taker becomes; a
/// line that none takes leaves them all as they were.
pub proof fn lemma_lbs_input(lbs: Seq<LbView>, line: Seq<char>, j: int)
    requires
        0 <= j,
        lbs.len() <= usize::MAX,
    ensures
        lbs_input(lbs, line, j).0.len() == lbs.len(),
        lbs_input(lbs, line, j).1 is FileList ==> false,
        lbs_input(lbs, line, j).1 is Nobody ==> lbs_input(lbs, line, j).0 == lbs,
        lbs_input(lbs, line, j).1 is Builder ==> {
            let m = lbs_input(lbs, line, j).1->Builder_0 as int;
            &&& j <= m < lbs.len()
            &&& lb_input(lbs[m], line).1
            &&& lbs_input(lbs, line, j).0 == lbs.update(m, lb_input(lbs[m], line).0)
        },
    decreases lbs.len() - j,
{
    if j < lbs.len() && !lb_input(lbs[j], line).1 {
        lemma_lbs_input(lbs, line, j + 1);
    }
}

/// A raw line changes at most one classifier, the one that takes it; a line
/// that none takes changes nothing, and so leaves the rendering as it was.
pub proof fn lemma_single_claimer(v: LinesView, line: Seq<char>)
    requires
        v.builders.len() <= usize::MAX,
    ensures
        lines_input(v, line).0.builders.len() == v.builders.len(),
        forall|k: int|
            0 <= k < v.builders.len() && lines_input(v, line).0.builders[k] != v.builders[k]
                ==> lines_input(v, line).1 == Claim::Builder(k as usize),
        lines_input(v, line).0.file_list != v.file_list ==> lines_input(v, line).1
            == Claim::FileList,
        lines_input(v, line).1 == Claim::Nobody ==> lines_input(v, line).0 == v
            && lines_output(lines_input(v, line).0) == lines_output(v),
{
    lemma_lbs_input(v.builders, line, 0);
}

impl Lines {
    /// The history of the classifier at `k` as the lines of a file, where that
    /// classifier is the password one.
    pub fn history_text(&self, k: usize) -> (r: Option<String>)
        requires
            k < self@.builders.len(),
        ensures
            r is Some <==> self@.builders[k as int] is Password,
            r is Some ==> r->0@ == crate::text::join(self@.builders[k as int]->Password_1, "\n"@),
    {
        match &self.inner[k] {
            LineBuilder::Password(p) => Some(p.history_text()),
            _ => None,
        }
    }

    /// Loads a history file's `content` into the first password classifier.
    pub fn load_history(&mut self, content: &str)
        requires
            old(self).wf(),
        ensures
            final(self).wf(),
            final(self)@ == lines_load_history(old(self)@, content@),
    {
        let ghost b0 = self@.builders;
        let mut k: usize = 0;
        while k < self.inner.len()
            invariant
                k <= self.inner@.len(),
                self@ == old(self)@,
                b0 == self@.builders,
                first_password(b0, k as int) == first_password(b0, 0),
                self.wf(),
            decreases self.inner@.len() - k,
        {
            let mut lb = self.inner.remove(k);
            assert(lb@ == b0[k as int]);
            match &mut lb {
                LineBuilder::Password(p) => {
                    p.load_history(content);
                    self.inner.insert(k, lb);
                    assert(self@.builders =~= lines_load_history(old(self)@, content@).builders);
                    return;
                },
                _ => {},
            }
            self.inner.insert(k, lb);
            assert(self@.builders =~= b0);
            k += 1;
        }
    }
}

/// The session as a structured document: raw lines go in, display lines
/// come out.
pub struct Document {
    lbs: Lines,
}

impl View for Document {
    type V = LinesView;

    closed spec fn view(&self) -> LinesView {
        self.lbs@
    }
}

impl Document {
    pub open spec fn wf(&self) -> bool {
        file_list_wf(self@.file_list) && self@.builders.len() <= usize::MAX
    }

    pub fn new() -> (r: Document)
        ensures
            r.wf(),
            r@.builders.len() == 0,
            r@.file_list == fresh_file_list(),
    {
        Document { lbs: Lines::new() }
    }

    /// Offers a raw line to the classifiers.
    pub fn input(&mut self, input: &str)
        requires
            old(self).wf(),
        ensures
            final(self).wf(),
            final(self)@ == lines_input(old(self)@, input@).0,
    {
        self.lbs.input(input);
    }

    /// The display lines, with neighbouring repeats kept once.
    pub fn output(&self) -> (r: Vec<String>)
        ensures
            views(r@) == dedup(lines_output(self@)),
            no_adjacent_repeats(views(r@)),
    {
        let lines = self.lbs.lines();
        let ghost s = views(lines@);
        let mut r: Vec<String> = Vec::new();
        let mut i: usize = 0;
        while i < lines.len()
            invariant
                i <= lines@.len(),
                s == views(lines@),
                views(r@) == dedup(s.take(i as int)),
            decreases lines@.len() - i,
        {
            let ghost t = s.take(i + 1);
            assert(t.drop_last() =~= s.take(i as int));
            proof {
                lemma_dedup(s.take(i as int));
            }
            let ghost r0 = views(r@);
            if r.len() == 0 || r[r.len() - 1] != lines[i] {
                r.push(lines[i].clone());
                assert(views(r@) =~= r0.push(s[i as int]));
            }
            i += 1;
        }
        assert(s.take(i as int) =~= s);
        proof {
            lemma_dedup(s);
        }
        r
    }

    /// The names of the files in the captured table.
    pub fn files(&self) -> (r: Vec<String>)
        ensures
            views(r@) == self@.file_list.files.map_values(|f: (Seq<char>, Seq<char>)| f.0),
    {
        self.lbs.file_list_lb.files()
    }

    /// Switches to the list layout; the file table stays.
    pub fn layout_list(&mut self)
        requires
            old(self).wf(),
        ensures
            final(self).wf(),
            final(self)@ == (LinesView { builders: list_layout(), file_list: old(self)@.file_list }),
    {
        let mut lbs = Lines::new_list();
        std::mem::swap(&mut self.lbs.file_list_lb, &mut lbs.file_list_lb);
        self.lbs = lbs;
    }

    /// Switches to the extract layout; the file table stays.
    pub fn layout_extract(&mut self)
        requires
            old(self).wf(),
        ensures
            final(self).wf(),
            final(self)@ == (LinesView { builders: extract_layout(), file_list: old(self)@.file_list }),
    {
        let mut lbs = Lines::new_extract();
        std::mem::swap(&mut self.lbs.file_list_lb, &mut lbs.file_list_lb);
        self.lbs = lbs;
    }

    /// Loads the entries of a password history file's `content`.
    pub fn load_password_history(&mut self, content: &str)
        requires
            old(self).wf(),
        ensures
            final(self).wf(),
            final(self)@ == lines_load_history(old(self)@, content@),
    {
        self.lbs.load_history(content);
    }

    /// Records `pwd` as accepted; where a password classifier takes it, the
    /// history to be written out, as the lines of a file.
    pub fn save_password(&mut self, pwd: &str) -> (r: Option<String>)
        requires
            old(self).wf(),
        ensures
            final(self).wf(),
            final(self)@ == lines_input(old(self)@, "Save password: "@ + pwd@).0,
            r is Some <==> lines_input(old(self)@, "Save password: "@ + pwd@).1 is Builder
                && final(self)@.builders[lines_input(old(self)@, "Save password: "@ + pwd@).1->Builder_0 as int] is Password,
            r is Some ==> r->0@ == crate::text::join(
                final(self)@.builders[lines_input(old(self)@, "Save password: "@ + pwd@).1->Builder_0 as int]->Password_1,
                "\n"@,
            ),
    {
        let mut line = String::from_str("Save password: ");
        line.append(pwd);
        let c = self.lbs.input(line.as_str());
        proof {
            lemma_lbs_input(old(self)@.builders, line@, 0);
        }
        match c {
            Claim::Builder(k) => self.lbs.history_text(k),
            _ => None,
        }
    }
}


/// A header line made of five runs of non-space characters separated by
/// spaces, maybe after leading and before trailing spaces: run `j` starts at
/// `a[j]`, and each of the first four ends just before `b[j]`.
pub open spec fn header_runs(s: Seq<char>, a: Seq<int>, b: Seq<int>) -> bool {
    &&& a.len() == 5
    &&& b.len() == 4
    &&& 0 <= a[0]
    &&& a[4] < s.len()
    &&& forall|i: int| 0 <= i < a[0] ==> s[i] == ' '
    &&& forall|j: int| 0 <= j < 4 ==> a[j] < #[trigger] b[j] < a[j + 1]
    &&& forall|j: int, i: int| #![trigger a[j], s[i]] 0 <= j < 4 && a[j] <= i < b[j] ==> s[i] != ' '
    &&& forall|j: int, i: int| #![trigger b[j], s[i]] 0 <= j < 4 && b[j] <= i < a[j + 1] ==> s[i] == ' '
    &&& s[a[4]] != ' '
}

/// The first `k` runs' ranges.
pub open spec fn closed_runs(a: Seq<int>, b: Seq<int>, k: int) -> Seq<(int, int)> {
    Seq::new(k as nat, |j: int| (a[j], b[j]))
}

/// The scan state of a header line after `n` characters, case by case.
pub open spec fn header_scan(s: Seq<char>, a: Seq<int>, b: Seq<int>, n: int) -> DashScan {
    if n <= a[0] {
        (Seq::empty(), n, ' ')
    } else if n <= b[0] {
        (closed_runs(a, b, 0), a[0], s[n - 1])
    } else if n <= a[1] {
        (closed_runs(a, b, 1), n, ' ')
    } else if n <= b[1] {
        (closed_runs(a, b, 1), a[1], s[n - 1])
    } else if n <= a[2] {
        (closed_runs(a, b, 2), n, ' ')
    } else if n <= b[2] {
        (closed_runs(a, b, 2), a[2], s[n - 1])
    } else if n <= a[3] {
        (closed_runs(a, b, 3), n, ' ')
    } else if n <= b[3] {
        (closed_runs(a, b, 3), a[3], s[n - 1])
    } else if n <= a[4] {
        (closed_runs(a, b, 4), n, ' ')
    } else {
        (closed_runs(a, b, 4), a[4], s[a[4]])
    }
}

proof fn lemma_header_scan(s: Seq<char>, a: Seq<int>, b: Seq<int>, n: nat)
    requires
        header_runs(s, a, b),
        n <= s.len(),
    ensures
        dash_scan(s, n) == header_scan(s, a, b, n as int),
    decreases n,
{
    if n > 0 {
        let m = (n - 1) as nat;
        lemma_header_scan(s, a, b, m);
        assert(b[0] < a[1] && b[1] < a[2] && b[2] < a[3] && b[3] < a[4]);
        assert(a[0] < b[0] && a[1] < b[1] && a[2] < b[2] && a[3] < b[3]);
        assert(closed_runs(a, b, 0) =~= Seq::<(int, int)>::empty());
        assert(closed_runs(a, b, 0).push((a[0], b[0])) =~= closed_runs(a, b, 1));
        assert(closed_runs(a, b, 1).push((a[1], b[1])) =~= closed_runs(a, b, 2));
        assert(closed_runs(a, b, 2).push((a[2], b[2])) =~= closed_runs(a, b, 3));
        assert(closed_runs(a, b, 3).push((a[3], b[3])) =~= closed_runs(a, b, 4));
        let i = m as int;
        if i < a[0] {
            assert(s[i] == ' ');
        } else if a[0] <= i < b[0] {
            assert(s[i] != ' ');
        } else if i == b[0] || (b[0] < i && i < a[1]) {
            assert(b[0] <= i < a[1]);
            assert(s[i] == ' ');
        } else if a[1] <= i < b[1] {
            assert(s[i] != ' ');
        } else if b[1] <= i < a[2] {
            assert(s[i] == ' ');
        } else if a[2] <= i < b[2] {
            assert(s[i] != ' ');
        } else if b[2] <= i < a[3] {
            assert(s[i] == ' ');
        } else if a[3] <= i < b[3] {
            assert(s[i] != ' ');
        } else if b[3] <= i < a[4] {
            assert(s[i] == ' ');
        }
    }
}

/// On a header line of five space-separated runs, the first four ranges
/// bound their runs exactly, and the fifth starts at the fifth run and runs
/// to the end of the line, trailing spaces included.
pub proof fn lemma_dash_ranges_bound_runs(s: Seq<char>, a: Seq<int>, b: Seq<int>)
    requires
        header_runs(s, a, b),
    ensures
        forall|j: int| 0 <= j < 4 ==> #[trigger] dash_range(s, j) == (a[j], b[j]),
        dash_range(s, 4) == (a[4], s.len() as int),
{
    lemma_header_scan(s, a, b, s.len());
}

/// The layout has a password classifier.
pub open spec fn has_password(lbs: Seq<LbView>) -> bool {
    exists|k: int| 0 <= k < lbs.len() && (#[trigger] lbs[k]) is Password
}

proof fn lemma_extract_taken(b: LbView, line: Seq<char>)
    requires
        crate::text::is_prefix("Extract to: "@, line),
    ensures
        lb_input(b, line).1 <==> b is Password,
        b is Password ==> lb_input(b, line).0 is Password && lb_input(b, line).0->Password_3 == Some(line),
{
    reveal_strlit("Extract to: ");
    reveal_strlit("Type = ");
    reveal_strlit("Method = ");
    reveal_strlit("ERROR:");
    assert(line[0] == "Extract to: "@[0]);
    assert(line[1] == "Extract to: "@[1]);
    if crate::text::is_prefix("Type = "@, line) {
        assert(line[0] == "Type = "@[0]);
    }
    if crate::text::is_prefix("Method = "@, line) {
        assert(line[0] == "Method = "@[0]);
    }
    if crate::text::is_prefix("ERROR:"@, line) {
        assert(line[1] == "ERROR:"@[1]);
    }
}

proof fn lemma_password_claims(lbs: Seq<LbView>, line: Seq<char>, j: int)
    requires
        0 <= j,
        lbs.len() <= usize::MAX,
        crate::text::is_prefix("Extract to: "@, line),
        exists|k: int| j <= k < lbs.len() && (#[trigger] lbs[k]) is Password,
    ensures
        lbs_input(lbs, line, j).1 is Builder,
    decreases lbs.len() - j,
{
    let k = choose|k: int| j <= k < lbs.len() && (#[trigger] lbs[k]) is Password;
    lemma_extract_taken(lbs[j], line);
    if !(lbs[j] is Password) {
        assert(k != j);
        assert(lbs[k] is Password);
        lemma_password_claims(lbs, line, j + 1);
    }
}

proof fn lemma_lbs_output_contains(lbs: Seq<LbView>, k: int, x: Seq<char>)
    requires
        0 <= k < lbs.len(),
        lb_output(lbs[k]).contains(x),
    ensures
        lbs_output(lbs).contains(x),
    decreases lbs.len(),
{
    let pre = lbs.drop_last();
    let o = lb_output(lbs.last());
    if k == lbs.len() - 1 {
        let i = choose|i: int| 0 <= i < o.len() && o[i] == x;
        assert((lbs_output(pre) + o)[lbs_output(pre).len() + i] == x);
    } else {
        assert(pre[k] == lbs[k]);
        lemma_lbs_output_contains(pre, k, x);
        let i = choose|i: int| 0 <= i < lbs_output(pre).len() && lbs_output(pre)[i] == x;
        assert((lbs_output(pre) + o)[i] == x);
    }
}

proof fn lemma_dedup_contains(s: Seq<Seq<char>>, x: Seq<char>)
    requires
        s.contains(x),
    ensures
        dedup(s).contains(x),
    decreases s.len(),
{
    lemma_dedup(s);
    if s.len() > 1 {
        let pre = s.drop_last();
        lemma_dedup(pre);
        if s.last() == x {
            assert(dedup(s)[dedup(s).len() - 1] == x);
        } else {
            let i = choose|i: int| 0 <= i < s.len() && s[i] == x;
            assert(pre[i] == x);
            lemma_dedup_contains(pre, x);
            let j = choose|j: int| 0 <= j < dedup(pre).len() && dedup(pre)[j] == x;
            if s.last() != s[s.len() - 2] {
                assert(dedup(s)[j] == x);
            }
        }
    } else {
        assert(dedup(s) == s);
    }
}

/// Where the layout has a password classifier, an extraction path line
/// shows in the rendering as soon as it is fed.
pub proof fn lemma_extract_line_shown(v: LinesView, line: Seq<char>)
    requires
        crate::text::is_prefix("Extract to: "@, line),
        has_password(v.builders),
        v.builders.len() <= usize::MAX,
    ensures
        dedup(lines_output(lines_input(v, line).0)).contains(line),
{
    reveal_strlit("Extract to: ");
    reveal_strlit("Set extract_path:");
    assert(line[0] == "Extract to: "@[0]);
    if crate::text::is_prefix("Set extract_path:"@, line) {
        assert(line[0] == "Set extract_path:"@[0]);
    }
    assert(is_synthetic(line));
    assert(!file_list_input(v.file_list, line).1);
    lemma_password_claims(v.builders, line, 0);
    lemma_lbs_input(v.builders, line, 0);
    let (nb, c) = lbs_input(v.builders, line, 0);
    let m = c->Builder_0 as int;
    lemma_extract_taken(v.builders[m], line);
    let w = nb[m];
    assert(w is Password && w->Password_3 == Some(line));
    let o = lb_output(w);
    assert(o == opt_line(w->Password_2) + opt_line(w->Password_3) + w->Password_0);
    assert(o[opt_line(w->Password_2).len() as int] == line);
    lemma_lbs_output_contains(nb, m, line);
    let i = choose|i: int| 0 <= i < lbs_output(nb).len() && lbs_output(nb)[i] == line;
    let n = lines_input(v, line).0;
    assert(lines_output(n)[i] == line);
    lemma_dedup_contains(lines_output(n), line);
}

} // verus!
