//! Orchestration of the archiver's list and extract commands.
use vstd::prelude::*;
use crate::output_format::{
    dedup, extract_layout, lines_input, lines_load_history, lines_output, list_layout, Document,
    LinesView, fresh_file_list, has_password, lemma_extract_line_shown,
};
use crate::text::first_prefixed;
use crate::text::{is_prefix, opt_view, views};

verus! {

/// `q` is a directory that all of `files` lie in: a non-empty prefix, ending
/// with `'/'`, of every name with a `'/'` appended (so `"test"` lies in
/// `"test/"`).
pub open spec fn common_dir(files: Seq<Seq<char>>, q: Seq<char>) -> bool {
    &&& files.len() > 0
    &&& q.len() > 0
    &&& q.last() == '/'
    &&& forall|i: int| 0 <= i < files.len() ==> is_prefix(q, #[trigger] files[i].push('/'))
}

fn slashed(f: &str) -> (r: String)
    ensures
        r@ == f@.push('/'),
{
    let mut r = String::from_str(f);
    r.append("/");
    proof {
        reveal_strlit("/");
    }
    assert(r@ =~= f@.push('/'));
    r
}

/// Length of the longest common prefix of `a` and `b`.
fn match_len(a: &str, b: &str) -> (m: usize)
    ensures
        m <= a@.len(),
        m <= b@.len(),
        is_prefix(a@.subrange(0, m as int), b@),
        m < a@.len() && m < b@.len() ==> a@[m as int] != b@[m as int],
{
    let la = a.unicode_len();
    let lb = b.unicode_len();
    let mut m: usize = 0;
    while m < la && m < lb && a.get_char(m) == b.get_char(m)
        invariant
            m <= la,
            m <= lb,
            la == a@.len(),
            lb == b@.len(),
            forall|t: int| 0 <= t < m ==> a@[t] == b@[t],
        decreases la - m,
    {
        m += 1;
    }
    assert(b@.subrange(0, m as int) =~= a@.subrange(0, m as int));
    m
}

/// The longest directory that all of `files` lie in, ending with `'/'`;
/// `None` where they share none, or where there is no file.
pub fn check_same_directory(files: &[String]) -> (r: Option<String>)
    ensures
        r is Some ==> common_dir(views(files@), r->0@),
        forall|q: Seq<char>| common_dir(views(files@), q) ==> r is Some && q.len() <= r->0@.len(),
{
    let ghost fs = views(files@);
    if files.len() == 0 {
        return None;
    }
    let g0 = slashed(files[0].as_str());
    let n0 = g0.unicode_len();
    let mut l: usize = n0;
    let mut i: usize = 1;
    assert(g0@.subrange(0, n0 as int) =~= g0@);
    while i < files.len()
        invariant
            1 <= i <= files@.len(),
            fs == views(files@),
            g0@ == fs[0].push('/'),
            n0 == g0@.len(),
            l <= n0,
            forall|j: int| 0 <= j < i ==> is_prefix(g0@.subrange(0, l as int), #[trigger] fs[j].push('/')),
            l == n0 || exists|j: int| 0 <= j < i && (l == (#[trigger] fs[j].push('/')).len() || fs[j].push('/')[l as int] != g0@[l as int]),
        decreases files@.len() - i,
    {
        let gi = slashed(files[i].as_str());
        let m = match_len(g0.as_str(), gi.as_str());
        let ghost old_l = l;
        if m < l {
            l = m;
        }
        assert forall|j: int| 0 <= j <= i implies is_prefix(g0@.subrange(0, l as int), #[trigger] fs[j].push('/')) by {
            if j < i {
                assert(is_prefix(g0@.subrange(0, old_l as int), fs[j].push('/')));
                assert(fs[j].push('/').subrange(0, l as int) =~= fs[j].push('/').subrange(0, old_l as int).subrange(0, l as int));
                assert(g0@.subrange(0, old_l as int).subrange(0, l as int) =~= g0@.subrange(0, l as int));
            } else {
                assert(fs[j].push('/') == gi@);
                assert(gi@.subrange(0, l as int) =~= gi@.subrange(0, m as int).subrange(0, l as int));
                assert(g0@.subrange(0, m as int).subrange(0, l as int) =~= g0@.subrange(0, l as int));
            }
        }
        proof {
            if m < old_l {
                assert(fs[i as int].push('/') == gi@);
                assert(l == (fs[i as int].push('/')).len() || fs[i as int].push('/')[l as int] != g0@[l as int]);
            }
        }
        i += 1;
    }
    let mut k: usize = l;
    while k > 0 && g0.get_char(k - 1) != '/'
        invariant
            k <= l <= n0,
            n0 == g0@.len(),
            forall|t: int| k <= t < l ==> g0@[t] != '/',
        decreases k,
    {
        k -= 1;
    }
    assert forall|q: Seq<char>| common_dir(fs, q) implies k > 0 && q.len() <= k by {
        assert(is_prefix(q, fs[0].push('/')));
        assert(q.len() <= l) by {
            if q.len() > l {
                let j = choose|j: int| 0 <= j < i && (l == (#[trigger] fs[j].push('/')).len() || fs[j].push('/')[l as int] != g0@[l as int]);
                assert(is_prefix(q, fs[j].push('/')));
                assert(q[l as int] == g0@.subrange(0, q.len() as int)[l as int]);
                assert(q[l as int] == fs[j].push('/').subrange(0, q.len() as int)[l as int]);
            }
        }
        assert(q[q.len() - 1] == g0@.subrange(0, q.len() as int)[q.len() - 1]);
    }
    if k == 0 {
        return None;
    }
    let p = String::from_str(g0.as_str().substring_char(0, k));
    assert forall|j: int| 0 <= j < fs.len() implies is_prefix(p@, #[trigger] fs[j].push('/')) by {
        assert(is_prefix(g0@.subrange(0, l as int), fs[j].push('/')));
        assert(fs[j].push('/').subrange(0, k as int) =~= fs[j].push('/').subrange(0, l as int).subrange(0, k as int));
        assert(g0@.subrange(0, l as int).subrange(0, k as int) =~= g0@.subrange(0, k as int));
        assert(p@ =~= g0@.subrange(0, k as int));
    }
    Some(p)
}


/// An update for the display.
pub enum Pushment {
    /// The whole buffer, with a place (row, column) for the cursor where the
    /// user is to type.
    Full(Vec<String>, Option<(usize, usize)>),
    /// One line of the buffer, by index.
    Line(u64, String),
    /// The end of the session.
    Close,
}

/// What the user asks for.
pub enum Operation {
    Password(String),
    SelectPassword(String),
    ExtractTo(String),
    Execute,
    Retry,
}

/// A command of the archiver.
#[derive(PartialEq, Eq, Structural, Clone, Copy, Debug)]
pub enum Cmd {
    List,
    Extract,
}

/// Whether a command runs, and how the last one ended.
#[derive(PartialEq, Eq, Structural, Clone, Copy, Debug)]
pub enum ExecuteStatus {
    Idle,
    Pending,
    ListFailed(i32),
    ExtractFailed(i32),
}

/// How a command is to be queued: awaited, with a closed queue fatal;
/// awaited, with a closed queue ignored; or only where the queue has room.
#[derive(PartialEq, Eq, Structural, Clone, Copy, Debug)]
pub enum Enqueue {
    Required(Cmd),
    Waiting(Cmd),
    Try(Cmd),
}

/// What an operation asks of the world: a command to queue, and text to
/// write to the child's standard input.
pub struct Reaction {
    pub enqueue: Option<Enqueue>,
    pub stdin: Option<String>,
}

/// What the end of a command asks of the world: the password history to
/// write out, and a line of the display to patch.
pub struct Finish {
    pub history: Option<String>,
    pub line: Option<Pushment>,
}

/// What a password prompt asks of the world: the display to show, and a
/// password chosen beforehand to submit.
pub struct Prompt {
    pub push: Pushment,
    pub submit: Option<Operation>,
}

pub uninterp spec fn path_parent(s: Seq<char>) -> Option<Seq<char>>;

pub uninterp spec fn path_stem(s: Seq<char>) -> Option<Seq<char>>;

pub uninterp spec fn path_joined(base: Seq<char>, part: Seq<char>) -> Seq<char>;

/// Relies on `Path::parent`: the path without its last component, where it
/// has one.
#[verifier::external_body]
fn parent_of(s: &str) -> (r: Option<String>)
    ensures
        opt_view(r) == path_parent(s@),
{
    match std::path::Path::new(s).parent() {
        Some(p) => Some(p.to_string_lossy().into_owned()),
        None => None,
    }
}

/// Relies on `Path::file_stem`: the last component without its extension.
#[verifier::external_body]
fn stem_of(s: &str) -> (r: Option<String>)
    ensures
        opt_view(r) == path_stem(s@),
{
    match std::path::Path::new(s).file_stem() {
        Some(p) => Some(p.to_string_lossy().into_owned()),
        None => None,
    }
}

/// Relies on `PathBuf::push`: `part` appended to `base` as a component.
#[verifier::external_body]
pub(crate) fn joined(base: &str, part: &str) -> (r: String)
    ensures
        r@ == path_joined(base@, part@),
{
    let mut p = std::path::PathBuf::from(base);
    p.push(part);
    p.to_string_lossy().into_owned()
}

/// What the orchestrator holds, as values.
pub struct Z7View {
    pub document: LinesView,
    pub password: Option<Seq<char>>,
    pub selected_password: Option<Seq<char>>,
    pub stdin_open: bool,
    pub status: ExecuteStatus,
    pub file: Seq<char>,
    pub extract_to_path: Seq<char>,
    pub password_history_file: Seq<char>,
}

/// The password flag of a command: none where no password is set.
pub open spec fn password_args(p: Option<Seq<char>>) -> Seq<Seq<char>> {
    match p {
        Some(p) => seq!["-p"@ + p],
        None => Seq::empty(),
    }
}

/// The arguments of the archiver for `cmd` in state `z`.
pub open spec fn cmd_args(z: Z7View, cmd: Cmd) -> Seq<Seq<char>> {
    match cmd {
        Cmd::List => seq!["l"@, z.file] + password_args(z.password),
        Cmd::Extract => seq!["x"@, z.file, "-y"@, "-o"@ + z.extract_to_path] + password_args(
            z.password,
        ),
    }
}

/// The state after a retry: the password is forgotten.
pub open spec fn after_retry(z: Z7View) -> Z7View {
    Z7View { password: None, ..z }
}

/// The state after `pwd` is submitted: the standard input is used up, and
/// a new password is recorded and shown.
pub open spec fn after_password(z: Z7View, pwd: Seq<char>) -> Z7View {
    if z.password == Some(pwd) {
        Z7View { stdin_open: false, ..z }
    } else {
        Z7View {
            stdin_open: false,
            password: Some(pwd),
            document: lines_input(z.document, "Input password: "@ + pwd).0,
            ..z
        }
    }
}

/// The text written to the child's standard input when `pwd` is submitted.
pub open spec fn password_stdin(z: Z7View, pwd: Seq<char>) -> Option<Seq<char>> {
    if z.stdin_open {
        Some(pwd)
    } else {
        None
    }
}

/// The state when `cmd` starts: the layout for it, and for a listing the
/// archive and the extraction path shown.
pub open spec fn begun(z: Z7View, cmd: Cmd) -> Z7View {
    match cmd {
        Cmd::List => Z7View {
            status: ExecuteStatus::Pending,
            document: lines_input(
                lines_input(
                    LinesView { builders: list_layout(), file_list: z.document.file_list },
                    "Extract file: "@ + z.file,
                ).0,
                "Extract to: "@ + z.extract_to_path,
            ).0,
            ..z
        },
        Cmd::Extract => Z7View {
            status: ExecuteStatus::Pending,
            document: LinesView { builders: extract_layout(), file_list: z.document.file_list },
            ..z
        },
    }
}

/// Drives the archiver's commands and keeps the session's state.
pub struct Z7 {
    document: Document,
    password: Option<String>,
    selected_password: Option<String>,
    stdin_open: bool,
    execute_status: ExecuteStatus,
    file: String,
    extract_to_path: String,
    password_history_file: String,
}

impl View for Z7 {
    type V = Z7View;

    closed spec fn view(&self) -> Z7View {
        Z7View {
            document: self.document@,
            password: opt_view(self.password),
            selected_password: opt_view(self.selected_password),
            stdin_open: self.stdin_open,
            status: self.execute_status,
            file: self.file@,
            extract_to_path: self.extract_to_path@,
            password_history_file: self.password_history_file@,
        }
    }
}

fn clone_opt(o: &Option<String>) -> (r: Option<String>)
    ensures
        opt_view(r) == opt_view(*o),
{
    match o {
        Some(s) => Some(s.clone()),
        None => None,
    }
}

fn cat(a: &str, b: &str) -> (r: String)
    ensures
        r@ == a@ + b@,
{
    let mut r = String::from_str(a);
    r.append(b);
    r
}

impl Z7 {
    pub closed spec fn wf(&self) -> bool {
        self.document.wf()
    }

    /// A session on the archive `file`, extracting beside it, with the
    /// password history in `password_history_file`. A path without a parent
    /// extracts to the empty path, as a bare file name does.
    pub fn new(file: &str, password_history_file: &str) -> (r: Z7)
        ensures
            r.wf(),
            r@.document.builders.len() == 0,
            r@.document.file_list == fresh_file_list(),
            r@.password is None,
            r@.selected_password is None,
            !r@.stdin_open,
            r@.status == ExecuteStatus::Idle,
            r@.file == file@,
            r@.extract_to_path == match path_parent(file@) {
                Some(p) => p,
                None => Seq::empty(),
            },
            r@.password_history_file == password_history_file@,
    {
        let extract_to_path = match parent_of(file) {
            Some(p) => p,
            None => String::new(),
        };
        Z7 {
            document: Document::new(),
            password: None,
            selected_password: None,
            stdin_open: false,
            execute_status: ExecuteStatus::Idle,
            file: String::from_str(file),
            extract_to_path,
            password_history_file: String::from_str(password_history_file),
        }
    }

    /// Submits `pwd`: written to the child's standard input where one is
    /// open, and recorded and shown where it differs from the last one.
    fn write_password(&mut self, pwd: String) -> (r: Option<String>)
        requires
            old(self).wf(),
        ensures
            final(self).wf(),
            final(self)@ == after_password(old(self)@, pwd@),
            opt_view(r) == password_stdin(old(self)@, pwd@),
    {
        let out = if self.stdin_open {
            self.stdin_open = false;
            Some(pwd.clone())
        } else {
            None
        };
        let same = match &self.password {
            Some(p) => *p == pwd,
            None => false,
        };
        if !same {
            let line = cat("Input password: ", pwd.as_str());
            self.document.input(line.as_str());
            self.password = Some(pwd);
        }
        out
    }

    /// Carries out an operation of the user; what the world must do for it
    /// comes back.
    pub fn operation(&mut self, op: Operation) -> (r: Reaction)
        requires
            old(self).wf(),
        ensures
            final(self).wf(),
            op is Execute ==> final(self)@ == old(self)@ && r.enqueue == Some(Enqueue::Required(Cmd::Extract)) && r.stdin is None,
            op is Retry ==> final(self)@ == after_retry(old(self)@) && r.enqueue == Some(Enqueue::Try(Cmd::List)) && r.stdin is None,
            op is ExtractTo ==> final(self)@ == (Z7View {
                extract_to_path: op->ExtractTo_0@,
                document: lines_input(old(self)@.document, "Extract to: "@ + op->ExtractTo_0@).0,
                ..old(self)@
            }) && r.enqueue is None && r.stdin is None,
            op is ExtractTo && has_password(old(self)@.document.builders) ==> dedup(
                lines_output(final(self)@.document),
            ).contains("Extract to: "@ + op->ExtractTo_0@),
            op is Password ==> final(self)@ == after_password(old(self)@, op->Password_0@)
                && r.enqueue is None && opt_view(r.stdin) == password_stdin(old(self)@, op->Password_0@),
            op is SelectPassword && old(self)@.status != ExecuteStatus::Pending ==> final(self)@ == (Z7View {
                password: None,
                selected_password: Some(op->SelectPassword_0@),
                ..old(self)@
            }) && r.enqueue == Some(Enqueue::Waiting(Cmd::List)) && r.stdin is None,
            op is SelectPassword && old(self)@.status == ExecuteStatus::Pending ==> final(self)@
                == after_password(old(self)@, op->SelectPassword_0@) && r.enqueue is None
                && opt_view(r.stdin) == password_stdin(old(self)@, op->SelectPassword_0@),
    {
        match op {
            Operation::Execute => Reaction { enqueue: Some(Enqueue::Required(Cmd::Extract)), stdin: None },
            Operation::Retry => {
                self.password = None;
                Reaction { enqueue: Some(Enqueue::Try(Cmd::List)), stdin: None }
            },
            Operation::ExtractTo(path) => {
                let line = cat("Extract to: ", path.as_str());
                proof {
                    assert(line@.subrange(0, "Extract to: "@.len() as int) =~= "Extract to: "@);
                    if has_password(self@.document.builders) {
                        lemma_extract_line_shown(self@.document, line@);
                    }
                }
                self.extract_to_path = path;
                self.document.input(line.as_str());
                Reaction { enqueue: None, stdin: None }
            },
            Operation::Password(pwd) => {
                let stdin = self.write_password(pwd);
                Reaction { enqueue: None, stdin }
            },
            Operation::SelectPassword(pwd) => {
                if self.execute_status != ExecuteStatus::Pending {
                    self.password = None;
                    self.selected_password = Some(pwd);
                    Reaction { enqueue: Some(Enqueue::Waiting(Cmd::List)), stdin: None }
                } else {
                    let stdin = self.write_password(pwd);
                    Reaction { enqueue: None, stdin }
                }
            },
        }
    }

    /// Starts `cmd`: the document takes its layout, the status becomes
    /// pending, and the archiver's arguments come back.
    pub fn begin_cmd(&mut self, cmd: Cmd) -> (args: Vec<String>)
        requires
            old(self).wf(),
        ensures
            final(self).wf(),
            final(self)@ == begun(old(self)@, cmd),
            views(args@) == cmd_args(old(self)@, cmd),
    {
        self.execute_status = ExecuteStatus::Pending;
        let mut args: Vec<String> = Vec::new();
        match cmd {
            Cmd::List => {
                self.document.layout_list();
                let l1 = cat("Extract file: ", self.file.as_str());
                self.document.input(l1.as_str());
                let l2 = cat("Extract to: ", self.extract_to_path.as_str());
                self.document.input(l2.as_str());
                args.push(String::from_str("l"));
                args.push(self.file.clone());
            },
            Cmd::Extract => {
                self.document.layout_extract();
                args.push(String::from_str("x"));
                args.push(self.file.clone());
                args.push(String::from_str("-y"));
                args.push(cat("-o", self.extract_to_path.as_str()));
            },
        }
        let ghost a0 = views(args@);
        match &self.password {
            Some(p) => {
                args.push(cat("-p", p.as_str()));
            },
            None => {},
        }
        assert(views(args@) =~= cmd_args(old(self)@, cmd));
        args
    }

    /// The child's standard input is now open for one write.
    pub fn stdin_installed(&mut self)
        ensures
            final(self)@ == (Z7View { stdin_open: true, ..old(self)@ }),
            final(self).wf() == old(self).wf(),
    {
        self.stdin_open = true;
    }
}


/// The names in the file table of a document.
pub open spec fn doc_files(d: LinesView) -> Seq<Seq<char>> {
    d.file_list.files.map_values(|f: (Seq<char>, Seq<char>)| f.0)
}

/// The document after a successful command records the password used.
pub open spec fn saved_doc(z: Z7View) -> LinesView {
    match z.password {
        Some(p) => lines_input(z.document, "Save password: "@ + p).0,
        None => z.document,
    }
}

/// The extraction path after a listing whose files share no top-level
/// directory: the archive's stem appended, where the archive has one.
pub open spec fn suffixed_path(z: Z7View) -> Option<Seq<char>> {
    if !exists|q: Seq<char>| common_dir(doc_files(saved_doc(z)), q) {
        match path_stem(z.file) {
            Some(stem) => Some(path_joined(z.extract_to_path, stem)),
            None => None,
        }
    } else {
        None
    }
}

/// The state after `cmd` ends. On success the status becomes idle, the
/// password is recorded, and after a listing the extraction path may take
/// the archive's stem; on failure the password is forgotten and the exit
/// code kept.
pub open spec fn finished(z: Z7View, cmd: Cmd, success: bool, code: i32) -> Z7View {
    if success {
        let z2 = Z7View {
            status: ExecuteStatus::Idle,
            stdin_open: false,
            document: saved_doc(z),
            ..z
        };
        if cmd == Cmd::List && suffixed_path(z) is Some {
            let np = suffixed_path(z)->0;
            Z7View {
                extract_to_path: np,
                document: lines_input(z2.document, "Extract to: "@ + np).0,
                ..z2
            }
        } else {
            z2
        }
    } else {
        Z7View {
            password: None,
            stdin_open: false,
            status: match cmd {
                Cmd::List => ExecuteStatus::ListFailed(code),
                Cmd::Extract => ExecuteStatus::ExtractFailed(code),
            },
            ..z
        }
    }
}

/// The document after a raw line of the child's output; a password prompt
/// also names the history file.
pub open spec fn after_output(z: Z7View, line: Seq<char>) -> LinesView {
    let d = lines_input(z.document, line).0;
    if crate::text::is_prefix("Enter password"@, line) {
        lines_input(d, "Password history file: "@ + z.password_history_file).0
    } else {
        d
    }
}


impl Z7 {
    /// Ends `cmd`, which exited with success or not, and with `code`.
    pub fn finish_cmd(&mut self, cmd: Cmd, success: bool, code: i32) -> (r: Finish)
        requires
            old(self).wf(),
        ensures
            final(self).wf(),
            final(self)@ == finished(old(self)@, cmd, success, code),
            !success ==> r.history is None && r.line is None,
            success ==> (r.history is Some <==> old(self)@.password is Some
                && lines_input(old(self)@.document, "Save password: "@ + old(self)@.password->0).1 is Builder
                && saved_doc(old(self)@).builders[lines_input(old(self)@.document, "Save password: "@ + old(self)@.password->0).1->Builder_0 as int] is Password),
            success && r.history is Some ==> r.history->0@ == crate::text::join(
                saved_doc(old(self)@).builders[lines_input(old(self)@.document, "Save password: "@ + old(self)@.password->0).1->Builder_0 as int]->Password_1,
                "\n"@,
            ),
            success && cmd == Cmd::List && suffixed_path(old(self)@) is Some ==> ({
                let shown = dedup(lines_output(final(self)@.document));
                let i = first_prefixed(shown, "Extract to: "@, 0);
                &&& (r.line is Some <==> i < shown.len())
                &&& r.line is Some ==> r.line->0 is Line && r.line->0->Line_0 == i as u64
                    && r.line->0->Line_1@ == "Extract to: "@ + suffixed_path(old(self)@)->0
            }),
            !(success && cmd == Cmd::List && suffixed_path(old(self)@) is Some) ==> r.line is None,
    {
        self.stdin_open = false;
        if !success {
            self.password = None;
            self.execute_status = match cmd {
                Cmd::List => ExecuteStatus::ListFailed(code),
                Cmd::Extract => ExecuteStatus::ExtractFailed(code),
            };
            return Finish { history: None, line: None };
        }
        self.execute_status = ExecuteStatus::Idle;
        let history = match &self.password {
            Some(p) => self.document.save_password(p.as_str()),
            None => None,
        };
        let mut line = None;
        if cmd == Cmd::List {
            let files = self.document.files();
            let shared = check_same_directory(files.as_slice());
            proof {
                assert(self@.document == saved_doc(old(self)@));
                assert(views(files@) == doc_files(saved_doc(old(self)@)));
                if shared is Some {
                    assert(common_dir(views(files@), shared->0@));
                }
            }
            if shared.is_none() {
                match stem_of(self.file.as_str()) {
                    Some(stem) => {
                        let np = joined(self.extract_to_path.as_str(), stem.as_str());
                        let input = cat("Extract to: ", np.as_str());
                        self.document.input(input.as_str());
                        self.extract_to_path = np;
                        let shown = self.document.output();
                        match crate::text::find_prefixed(&shown, "Extract to: ") {
                            Some(i) => {
                                line = Some(Pushment::Line(i as u64, input));
                            },
                            None => {},
                        }
                    },
                    None => {},
                }
            }
        }
        Finish { history, line }
    }

    /// Takes a raw line of the child's output. At a password prompt the
    /// path of the history file comes back, for its content to be loaded
    /// with `prompt_shown`.
    pub fn output_line(&mut self, line: &str) -> (r: Option<String>)
        requires
            old(self).wf(),
        ensures
            final(self).wf(),
            final(self)@ == (Z7View { document: after_output(old(self)@, line@), ..old(self)@ }),
            crate::text::is_prefix("Enter password"@, line@) ==> r is Some && r->0@ == old(self)@.password_history_file,
            !crate::text::is_prefix("Enter password"@, line@) ==> r is None,
    {
        self.document.input(line);
        if crate::text::starts_with(line, "Enter password") {
            let l = cat("Password history file: ", self.password_history_file.as_str());
            self.document.input(l.as_str());
            Some(self.password_history_file.clone())
        } else {
            None
        }
    }

    /// Shows the document at a password prompt, with the content of the
    /// history file where it could be read. The cursor goes to the prompt,
    /// unless a password chosen beforehand is to be submitted instead.
    pub fn prompt_shown(&mut self, history: Option<String>) -> (r: Prompt)
        requires
            old(self).wf(),
        ensures
            final(self).wf(),
            final(self)@ == (Z7View {
                document: match history {
                    Some(c) => lines_load_history(old(self)@.document, c@),
                    None => old(self)@.document,
                },
                selected_password: None,
                ..old(self)@
            }),
            r.push is Full,
            views(r.push->Full_0@) == dedup(lines_output(final(self)@.document)),
            ({
                let shown = dedup(lines_output(final(self)@.document));
                let i = first_prefixed(shown, "Enter password"@, 0);
                r.push->Full_1 == (if old(self)@.selected_password is None && i < shown.len() {
                    Some(((i + 1) as usize, 1usize))
                } else {
                    None
                })
            }),
            old(self)@.selected_password is None ==> r.submit is None,
            old(self)@.selected_password is Some ==> r.submit is Some && r.submit->0 is Password
                && r.submit->0->Password_0@ == old(self)@.selected_password->0,
    {
        match history {
            Some(c) => self.document.load_password_history(c.as_str()),
            None => {},
        }
        let lines = self.document.output();
        let selected = self.selected_password.take();
        match selected {
            Some(pwd) => Prompt { push: Pushment::Full(lines, None), submit: Some(Operation::Password(pwd)) },
            None => {
                let n = lines.len();
                let cursor = match crate::text::find_prefixed(&lines, "Enter password") {
                    Some(i) => {
                        assert(i < n);
                        Some((i + 1, 1))
                    },
                    None => None,
                };
                Prompt { push: Pushment::Full(lines, cursor), submit: None }
            },
        }
    }

    /// The whole document, once a command's output has ended.
    pub fn output_end(&self) -> (r: Pushment)
        ensures
            r is Full && r->Full_1 is None,
            views(r->Full_0@) == dedup(lines_output(self@.document)),
    {
        Pushment::Full(self.document.output(), None)
    }

    pub fn document(&self) -> (r: &Document)
        ensures
            r@ == self@.document,
    {
        &self.document
    }

    pub fn password(&self) -> (r: Option<String>)
        ensures
            opt_view(r) == self@.password,
    {
        clone_opt(&self.password)
    }

    pub fn status(&self) -> (r: ExecuteStatus)
        ensures
            r == self@.status,
    {
        self.execute_status
    }

    pub fn extract_to_path(&self) -> (r: String)
        ensures
            r@ == self@.extract_to_path,
    {
        self.extract_to_path.clone()
    }
}

/// Retrying forgets the password, so the listing that follows passes no
/// password flag: only the command and the archive.
pub proof fn lemma_retry_lists_without_password(z: Z7View)
    ensures
        cmd_args(after_retry(z), Cmd::List) == seq!["l"@, z.file],
{
    assert(cmd_args(after_retry(z), Cmd::List) =~= seq!["l"@, z.file]);
}

} // verus!
