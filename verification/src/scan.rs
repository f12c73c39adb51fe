//! Discovery: classifying executables by their magic numbers, parsing
//! `.desktop` entries, and the scan coordinator that fills an empty
//! store exactly once with what the filesystem walk found.

use vstd::prelude::*;
use crate::text::{
    trim_seq, trim_chars, chars_of, string_from_chars, str_eq, first_index_of, find_char,
};
use crate::matching::subvec;
use crate::store::{
    ActionStore, StoreView, ActionKind, wf_view, insert_program_spec, insert_desktop_spec,
    needs_scan_view, ACTION_CAP,
};

verus! {

/// Executable formats told apart by their first bytes.
#[derive(Clone, Copy, Debug, PartialEq, Eq, Structural)]
pub enum FileType {
    Elf,
    MachO,
    Script,
    Other,
}

/// A discovered executable: its canonical name and path, and what the
/// magic numbers said. The format is informational only and never
/// affects ranking.
#[derive(Clone, Debug)]
pub struct FileInfo {
    pub name: String,
    pub path: String,
    pub file_type: FileType,
}

/// What the first bytes of a file say about its format: ELF, Mach-O
/// (either byte order), a `#!` script, or anything else.
pub open spec fn classify_magic(b: Seq<u8>) -> FileType {
    if b.len() >= 4 && b[0] == 0x7f && b[1] == 0x45 && b[2] == 0x4c && b[3] == 0x46 {
        FileType::Elf
    } else if b.len() >= 4 && b[0] == 0xfe && b[1] == 0xed && b[2] == 0xfa && (b[3] == 0xce || b[3]
        == 0xcf) {
        FileType::MachO
    } else if b.len() >= 2 && b[0] == 0x23 && b[1] == 0x21 {
        FileType::Script
    } else {
        FileType::Other
    }
}

/// Classifies an executable by the first bytes read from it.
pub fn classify_executable(buffer: &Vec<u8>) -> (r: FileType)
    ensures
        r == classify_magic(buffer@),
{
    if buffer.len() >= 4 && buffer[0] == 0x7f && buffer[1] == 0x45 && buffer[2] == 0x4c
        && buffer[3] == 0x46 {
        FileType::Elf
    } else if buffer.len() >= 4 && buffer[0] == 0xfe && buffer[1] == 0xed && buffer[2] == 0xfa && (
    buffer[3] == 0xce || buffer[3] == 0xcf) {
        FileType::MachO
    } else if buffer.len() >= 2 && buffer[0] == 0x23 && buffer[1] == 0x21 {
        FileType::Script
    } else {
        FileType::Other
    }
}

/// A path with a leading tilde resolved against the home directory.
pub open spec fn expand_tilde_seq(path: Seq<char>, home: Seq<char>) -> Seq<char> {
    if path.len() > 0 && path[0] == '~' {
        home + path.skip(1)
    } else {
        path
    }
}

/// Expands a leading tilde to the home directory.
pub fn expand_tilde(path: &str, home: &str) -> (r: String)
    ensures
        r@ == expand_tilde_seq(path@, home@),
{
    let p = chars_of(path);
    if p.len() > 0 && p[0] == '~' {
        let rest = subvec(&p, 1, p.len());
        let mut out = crate::text::chars_to_owned(home);
        let rest_s = string_from_chars(&rest);
        out.append(rest_s.as_str());
        proof {
            assert(p@.subrange(1, p@.len() as int) =~= p@.skip(1));
        }
        out
    } else {
        crate::text::chars_to_owned(path)
    }
}

/// The user directories scanned besides `PATH`.
pub fn get_additional_paths(home: &str) -> (r: Vec<String>)
    ensures
        r@.len() == 3,
        r@[0]@ == home@ + "/.local/bin"@,
        r@[1]@ == home@ + "/bin"@,
        r@[2]@ == "/snap/bin/"@,
{
    let mut out: Vec<String> = Vec::new();
    out.push(expand_tilde("~/.local/bin", home));
    out.push(expand_tilde("~/bin", home));
    out.push(expand_tilde("/snap/bin/", home));
    proof {
        assert("~/.local/bin"@.skip(1) =~= "/.local/bin"@) by {
            reveal_strlit("~/.local/bin");
            reveal_strlit("/.local/bin");
        }
        assert("~/bin"@.skip(1) =~= "/bin"@) by {
            reveal_strlit("~/bin");
            reveal_strlit("/bin");
        }
        assert("~/.local/bin"@.len() > 0 && "~/.local/bin"@[0] == '~') by {
            reveal_strlit("~/.local/bin");
        }
        assert("~/bin"@.len() > 0 && "~/bin"@[0] == '~') by {
            reveal_strlit("~/bin");
        }
        assert(!("/snap/bin/"@.len() > 0 && "/snap/bin/"@[0] == '~')) by {
            reveal_strlit("/snap/bin/");
        }
    }
    out
}

/// A parsed, valid desktop application entry.
#[derive(Clone, Debug)]
pub struct DesktopEntry {
    pub name: String,
    pub exec_cmd: String,
    pub icon: String,
    pub filename: String,
    pub takes_args: bool,
    pub categories: Vec<String>,
}

/// The simpler application record kept by the plain desktop scan.
#[derive(Clone, Debug)]
pub struct AppInfo {
    pub name: String,
    pub exec_cmd: String,
    pub icon: String,
    pub filename: String,
}

/// Length of the leading run up to the next `;`: how the `Categories`
/// key separates its entries.
pub open spec fn semi_run_len(s: Seq<char>) -> int
    decreases s.len(),
{
    if s.len() == 0 || s[0] == ';' {
        0
    } else {
        1 + semi_run_len(s.skip(1))
    }
}

proof fn lemma_semi_run_len_bounds(s: Seq<char>)
    ensures
        0 <= semi_run_len(s) <= s.len(),
        s.len() > 0 && s[0] != ';' ==> semi_run_len(s) >= 1,
    decreases s.len(),
{
    if s.len() > 0 && s[0] != ';' {
        lemma_semi_run_len_bounds(s.skip(1));
    }
}

/// The `;`-separated segments of a sequence, in order, each trimmed of
/// blanks; segments that are empty once trimmed are dropped.
pub open spec fn segments_of(s: Seq<char>) -> Seq<Seq<char>>
    decreases s.len(),
    via segments_of_dec
{
    if s.len() == 0 {
        Seq::empty()
    } else if s[0] == ';' {
        segments_of(s.skip(1))
    } else {
        let seg = trim_seq(s.take(semi_run_len(s)));
        (if seg.len() == 0 {
            Seq::<Seq<char>>::empty()
        } else {
            seq![seg]
        }) + segments_of(s.skip(semi_run_len(s)))
    }
}

#[via_fn]
proof fn segments_of_dec(s: Seq<char>) {
    lemma_semi_run_len_bounds(s);
}

proof fn lemma_semi_run_len_exact(s: Seq<char>, m: int)
    requires
        0 <= m <= s.len(),
        forall|j: int| 0 <= j < m ==> s[j] != ';',
        m == s.len() || s[m] == ';',
    ensures
        semi_run_len(s) == m,
    decreases s.len(),
{
    if m > 0 {
        assert(s[0] != ';');
        assert forall|j: int| 0 <= j < m - 1 implies s.skip(1)[j] != ';' by {
            assert(s.skip(1)[j] == s[j + 1]);
        }
        if m - 1 < s.skip(1).len() {
            assert(s.skip(1)[m - 1] == s[m]);
        }
        lemma_semi_run_len_exact(s.skip(1), m - 1);
    }
}

/// Splits a `Categories` value into its trimmed, non-empty segments.
pub fn split_segments(s: &Vec<char>) -> (r: Vec<String>)
    ensures
        r.deep_view() == segments_of(s@),
{
    let n = s.len();
    let mut out: Vec<String> = Vec::new();
    let mut i: usize = 0;
    proof {
        assert(s@.skip(0) =~= s@);
    }
    while i < n
        invariant
            i <= n,
            n == s@.len(),
            segments_of(s@) == out.deep_view() + segments_of(s@.skip(i as int)),
        decreases n - i,
    {
        if s[i] == ';' {
            proof {
                assert(s@.skip(i as int)[0] == s@[i as int]);
                assert(s@.skip(i as int).skip(1) =~= s@.skip(i + 1));
            }
            i = i + 1;
        } else {
            let start = i;
            let mut j: usize = i + 1;
            while j < n && s[j] != ';'
                invariant
                    start < j <= n,
                    n == s@.len(),
                    forall|k: int| start <= k < j ==> s@[k] != ';',
                decreases n - j,
            {
                j = j + 1;
            }
            let seg = subvec(s, start, j);
            let trimmed = trim_chars(&seg);
            proof {
                let rest = s@.skip(start as int);
                assert forall|k: int| 0 <= k < j - start implies rest[k] != ';' by {
                    assert(rest[k] == s@[start + k]);
                }
                if j - start < rest.len() {
                    assert(rest[j - start] == s@[j as int]);
                }
                lemma_semi_run_len_exact(rest, j - start);
                assert(rest.take(j - start) =~= s@.subrange(start as int, j as int));
                assert(rest.skip(j - start) =~= s@.skip(j as int));
                assert(trimmed@ == trim_seq(rest.take(j - start)));
            }
            if trimmed.len() > 0 {
                let seg_s = string_from_chars(&trimmed);
                proof {
                    assert(segments_of(s@.skip(start as int)) == seq![seg_s@] + segments_of(
                        s@.skip(j as int),
                    ));
                }
                let ghost old_v = out@;
                let ghost old_dv = out.deep_view();
                out.push(seg_s);
                proof {
                    assert forall|k: int| 0 <= k < out@.len() implies out.deep_view()[k]
                        == old_dv.push(trimmed@)[k] by {
                        if k < old_v.len() {
                            assert(out@[k] == old_v[k]);
                        } else {
                            assert(out@[k]@ == trimmed@);
                        }
                    }
                    assert(out.deep_view() =~= old_dv.push(trimmed@));
                    assert(old_dv.push(trimmed@) =~= old_dv + seq![trimmed@]);
                    assert(segments_of(s@) == out.deep_view() + segments_of(s@.skip(j as int)));
                }
            } else {
                proof {
                    assert(segments_of(s@.skip(start as int)) =~= Seq::<Seq<char>>::empty()
                        + segments_of(s@.skip(j as int)));
                    assert(segments_of(s@) == out.deep_view() + segments_of(s@.skip(j as int)));
                }
            }
            i = j;
        }
    }
    proof {
        assert(s@.skip(n as int).len() == 0);
        assert(out.deep_view() =~= segments_of(s@));
    }
    out
}

/// The fields a desktop entry parse accumulates, as mathematics.
#[verifier::ext_equal]
pub struct EntryFieldsView {
    pub name: Seq<char>,
    pub exec_cmd: Seq<char>,
    pub icon: Seq<char>,
    pub type_entry: Seq<char>,
    pub categories: Seq<Seq<char>>,
    pub in_section: bool,
}

/// The state before any line was read.
pub open spec fn init_fields() -> EntryFieldsView {
    EntryFieldsView {
        name: Seq::empty(),
        exec_cmd: Seq::empty(),
        icon: Seq::empty(),
        type_entry: Seq::empty(),
        categories: Seq::empty(),
        in_section: false,
    }
}

/// One key set to one value, inside the `[Desktop Entry]` section.
pub open spec fn apply_field(st: EntryFieldsView, key: Seq<char>, value: Seq<char>) -> EntryFieldsView {
    if key == "Name"@ {
        EntryFieldsView { name: value, ..st }
    } else if key == "Exec"@ {
        EntryFieldsView { exec_cmd: value, ..st }
    } else if key == "Icon"@ {
        EntryFieldsView { icon: value, ..st }
    } else if key == "Type"@ {
        EntryFieldsView { type_entry: value, ..st }
    } else if key == "Categories"@ {
        EntryFieldsView { categories: segments_of(value), ..st }
    } else {
        st
    }
}

/// One line of a desktop file applied to the parse state: the
/// `[Desktop Entry]` header opens the section, any other header closes
/// it, and a `key=value` line inside the section sets a field.
pub open spec fn apply_line(st: EntryFieldsView, line: Seq<char>) -> EntryFieldsView {
    let l = trim_seq(line);
    if l == "[Desktop Entry]"@ {
        EntryFieldsView { in_section: true, ..st }
    } else if l.len() > 0 && l[0] == '[' {
        EntryFieldsView { in_section: false, ..st }
    } else if st.in_section && first_index_of(l, '=') >= 0 {
        let e = first_index_of(l, '=');
        apply_field(st, trim_seq(l.take(e)), trim_seq(l.skip(e + 1)))
    } else {
        st
    }
}

/// All lines of a desktop file folded over the parse state.
pub open spec fn fold_lines(st: EntryFieldsView, lines: Seq<Seq<char>>) -> EntryFieldsView
    decreases lines.len(),
{
    if lines.len() == 0 {
        st
    } else {
        fold_lines(apply_line(st, lines.first()), lines.drop_first())
    }
}

/// The accumulating parse state.
pub struct DesktopEntryData {
    pub name: String,
    pub exec_cmd: String,
    pub icon: String,
    pub type_entry: String,
    pub categories: Vec<String>,
    pub in_section: bool,
}

impl View for DesktopEntryData {
    type V = EntryFieldsView;

    open spec fn view(&self) -> EntryFieldsView {
        EntryFieldsView {
            name: self.name@,
            exec_cmd: self.exec_cmd@,
            icon: self.icon@,
            type_entry: self.type_entry@,
            categories: self.categories.deep_view(),
            in_section: self.in_section,
        }
    }
}

impl DesktopEntryData {
    /// The state before any line was read.
    pub fn new() -> (r: DesktopEntryData)
        ensures
            r@ == init_fields(),
    {
        let r = DesktopEntryData {
            name: String::new(),
            exec_cmd: String::new(),
            icon: String::new(),
            type_entry: String::new(),
            categories: Vec::new(),
            in_section: false,
        };
        proof {
            assert(r@ =~= init_fields());
        }
        r
    }

    /// Sets one field from a trimmed key and value.
    pub fn update_field(&mut self, key: &str, value: &str)
        ensures
            final(self)@ == apply_field(old(self)@, key@, value@),
    {
        let ghost oldv = self@;
        if str_eq(key, "Name") {
            self.name = crate::text::chars_to_owned(value);
        } else if str_eq(key, "Exec") {
            self.exec_cmd = crate::text::chars_to_owned(value);
        } else if str_eq(key, "Icon") {
            self.icon = crate::text::chars_to_owned(value);
        } else if str_eq(key, "Type") {
            self.type_entry = crate::text::chars_to_owned(value);
        } else if str_eq(key, "Categories") {
            let vc = chars_of(value);
            self.categories = split_segments(&vc);
        }
        proof {
            assert(self@ =~= apply_field(oldv, key@, value@));
        }
    }

    /// Applies one raw line of the file.
    pub fn apply_line_exec(&mut self, line: &str)
        ensures
            final(self)@ == apply_line(old(self)@, line@),
    {
        let ghost oldv = self@;
        let lc = chars_of(line);
        let l = trim_chars(&lc);
        let ls = string_from_chars(&l);
        if str_eq(ls.as_str(), "[Desktop Entry]") {
            self.in_section = true;
            proof {
                assert(self@ =~= apply_line(oldv, line@));
            }
            return;
        }
        if l.len() > 0 && l[0] == '[' {
            self.in_section = false;
            proof {
                assert(self@ =~= apply_line(oldv, line@));
            }
            return;
        }
        if self.in_section {
            match find_char(&l, '=') {
                Some(e) => {
                    proof {
                        crate::text::lemma_first_index_of(l@, '=');
                    }
                    let key_part = subvec(&l, 0, e);
                    let val_part = subvec(&l, e + 1, l.len());
                    let key_t = trim_chars(&key_part);
                    let val_t = trim_chars(&val_part);
                    let key_s = string_from_chars(&key_t);
                    let val_s = string_from_chars(&val_t);
                    proof {
                        assert(l@.subrange(0, e as int) =~= l@.take(e as int));
                        assert(l@.subrange(e + 1, l@.len() as int) =~= l@.skip(e + 1));
                    }
                    self.update_field(key_s.as_str(), val_s.as_str());
                    proof {
                        assert(self@ =~= apply_line(oldv, line@));
                    }
                },
                None => {
                    proof {
                        assert(self@ =~= apply_line(oldv, line@));
                    }
                },
            }
        } else {
            proof {
                assert(self@ =~= apply_line(oldv, line@));
            }
        }
    }
}


/// One field code replaced by nothing, left to right, as
/// `str::replace` does it.
pub open spec fn remove_code(s: Seq<char>, c0: char, c1: char) -> Seq<char>
    decreases s.len(),
{
    if s.len() < 2 {
        s
    } else if s[0] == c0 && s[1] == c1 {
        remove_code(s.skip(2), c0, c1)
    } else {
        seq![s[0]] + remove_code(s.skip(1), c0, c1)
    }
}

/// Removes every occurrence of one two-character field code.
fn remove_code_chars(s: &Vec<char>, c0: char, c1: char) -> (r: Vec<char>)
    ensures
        r@ == remove_code(s@, c0, c1),
{
    let n = s.len();
    let mut out: Vec<char> = Vec::new();
    let mut i: usize = 0;
    proof {
        assert(s@.skip(0) =~= s@);
    }
    while i < n
        invariant
            i <= n,
            n == s@.len(),
            remove_code(s@, c0, c1) == out@ + remove_code(s@.skip(i as int), c0, c1),
        decreases n - i,
    {
        let ghost rest = s@.skip(i as int);
        if i + 1 < n && s[i] == c0 && s[i + 1] == c1 {
            proof {
                assert(rest[0] == s@[i as int] && rest[1] == s@[i + 1]);
                assert(rest.skip(2) =~= s@.skip(i + 2));
            }
            i = i + 2;
        } else {
            let ghost old_out = out@;
            out.push(s[i]);
            proof {
                assert(rest[0] == s@[i as int]);
                if rest.len() >= 2 {
                    assert(rest[1] == s@[i + 1]);
                    assert(rest.skip(1) =~= s@.skip(i + 1));
                    assert(remove_code(rest, c0, c1) == seq![s@[i as int]] + remove_code(
                        s@.skip(i + 1),
                        c0,
                        c1,
                    ));
                } else {
                    assert(rest =~= seq![s@[i as int]]);
                    assert(s@.skip(i + 1).len() == 0);
                    assert(remove_code(rest, c0, c1) == rest);
                    assert(remove_code(s@.skip(i + 1), c0, c1) == s@.skip(i + 1));
                    assert(remove_code(rest, c0, c1) =~= seq![s@[i as int]] + remove_code(
                        s@.skip(i + 1),
                        c0,
                        c1,
                    ));
                }
                assert(out@ =~= old_out + seq![s@[i as int]]);
                assert(out@ + remove_code(s@.skip(i + 1), c0, c1) =~= old_out + remove_code(
                    rest,
                    c0,
                    c1,
                ));
            }
            i = i + 1;
        }
    }
    proof {
        assert(s@.skip(n as int).len() == 0);
        assert(out@ =~= remove_code(s@, c0, c1));
    }
    out
}

/// The freedesktop exec value with every field code removed and the
/// remainder trimmed: what is stored and executed.
pub open spec fn strip_codes_seq(s: Seq<char>) -> Seq<char> {
    let s1 = remove_code(s, '%', 'f');
    let s2 = remove_code(s1, '%', 'F');
    let s3 = remove_code(s2, '%', 'u');
    let s4 = remove_code(s3, '%', 'U');
    let s5 = remove_code(s4, '%', 'd');
    let s6 = remove_code(s5, '%', 'D');
    let s7 = remove_code(s6, '%', 'n');
    let s8 = remove_code(s7, '%', 'N');
    let s9 = remove_code(s8, '%', 'i');
    let s10 = remove_code(s9, '%', 'c');
    let s11 = remove_code(s10, '%', 'k');
    let s12 = remove_code(s11, '%', 'v');
    let s13 = remove_code(s12, '%', 'm');
    trim_seq(s13)
}

/// Strips the freedesktop field codes off an exec value.
pub fn strip_field_codes(exec_value: &str) -> (r: String)
    ensures
        r@ == strip_codes_seq(exec_value@),
{
    let c = chars_of(exec_value);
    let c = remove_code_chars(&c, '%', 'f');
    let c = remove_code_chars(&c, '%', 'F');
    let c = remove_code_chars(&c, '%', 'u');
    let c = remove_code_chars(&c, '%', 'U');
    let c = remove_code_chars(&c, '%', 'd');
    let c = remove_code_chars(&c, '%', 'D');
    let c = remove_code_chars(&c, '%', 'n');
    let c = remove_code_chars(&c, '%', 'N');
    let c = remove_code_chars(&c, '%', 'i');
    let c = remove_code_chars(&c, '%', 'c');
    let c = remove_code_chars(&c, '%', 'k');
    let c = remove_code_chars(&c, '%', 'v');
    let c = remove_code_chars(&c, '%', 'm');
    let c = trim_chars(&c);
    string_from_chars(&c)
}

/// Some whitespace-separated token of the raw exec value is one of the
/// argument field codes `%f`, `%F`, `%u`, `%U`.
pub open spec fn has_argument_code(exec_raw: Seq<char>) -> bool {
    exists|k: int|
        0 <= k < crate::matching::tokens_of(exec_raw).len() && ((#[trigger] crate::matching::tokens_of(
            exec_raw,
        )[k]) == "%f"@ || crate::matching::tokens_of(exec_raw)[k] == "%F"@
            || crate::matching::tokens_of(exec_raw)[k] == "%u"@ || crate::matching::tokens_of(
            exec_raw,
        )[k] == "%U"@)
}

/// Decides `has_argument_code` on the raw exec value.
pub fn exec_takes_argument(exec_raw: &Vec<char>) -> (r: bool)
    ensures
        r == has_argument_code(exec_raw@),
{
    let toks = crate::matching::split_tokens(exec_raw);
    let pf = chars_of("%f");
    let pff = chars_of("%F");
    let pu = chars_of("%u");
    let puu = chars_of("%U");
    let mut i: usize = 0;
    while i < toks.len()
        invariant
            i <= toks@.len(),
            toks.deep_view() == crate::matching::tokens_of(exec_raw@),
            pf@ == "%f"@ && pff@ == "%F"@ && pu@ == "%u"@ && puu@ == "%U"@,
            forall|k: int|
                0 <= k < i ==> !((#[trigger] toks.deep_view()[k]) == "%f"@ || toks.deep_view()[k]
                    == "%F"@ || toks.deep_view()[k] == "%u"@ || toks.deep_view()[k] == "%U"@),
        decreases toks@.len() - i,
    {
        proof {
            assert(toks.deep_view()[i as int] == toks@[i as int]@);
        }
        if crate::text::chars_eq(&toks[i], &pf) || crate::text::chars_eq(&toks[i], &pff)
            || crate::text::chars_eq(&toks[i], &pu) || crate::text::chars_eq(&toks[i], &puu) {
            return true;
        }
        i = i + 1;
    }
    false
}

/// One of the categories is `WebBrowser`: the only class of entry that
/// may take a free-text argument.
pub open spec fn has_webbrowser_category(cats: Seq<Seq<char>>) -> bool {
    exists|k: int| 0 <= k < cats.len() && #[trigger] cats[k] == "WebBrowser"@
}

/// Decides `has_webbrowser_category`.
pub fn is_webbrowser(categories: &Vec<String>) -> (r: bool)
    ensures
        r == has_webbrowser_category(categories.deep_view()),
{
    let mut i: usize = 0;
    while i < categories.len()
        invariant
            i <= categories@.len(),
            forall|k: int| 0 <= k < i ==> (#[trigger] categories.deep_view()[k]) != "WebBrowser"@,
        decreases categories@.len() - i,
    {
        proof {
            assert(categories.deep_view()[i as int] == categories@[i as int]@);
        }
        if str_eq(categories[i].as_str(), "WebBrowser") {
            return true;
        }
        i = i + 1;
    }
    false
}

impl DesktopEntry {
    /// The plain application record of this entry.
    pub fn app_info(&self) -> (r: AppInfo)
        ensures
            r.name@ == self.name@,
            r.exec_cmd@ == self.exec_cmd@,
            r.icon@ == self.icon@,
            r.filename@ == self.filename@,
    {
        AppInfo {
            name: crate::text::chars_to_owned(self.name.as_str()),
            exec_cmd: crate::text::chars_to_owned(self.exec_cmd.as_str()),
            icon: crate::text::chars_to_owned(self.icon.as_str()),
            filename: crate::text::chars_to_owned(self.filename.as_str()),
        }
    }
}

#[verifier::ext_equal]
pub struct DesktopEntryView {
    pub name: Seq<char>,
    pub exec_cmd: Seq<char>,
    pub icon: Seq<char>,
    pub filename: Seq<char>,
    pub takes_args: bool,
    pub categories: Seq<Seq<char>>,
}

impl View for DesktopEntry {
    type V = DesktopEntryView;

    open spec fn view(&self) -> DesktopEntryView {
        DesktopEntryView {
            name: self.name@,
            exec_cmd: self.exec_cmd@,
            icon: self.icon@,
            filename: self.filename@,
            takes_args: self.takes_args,
            categories: self.categories.deep_view(),
        }
    }
}

/// What a finished parse yields: nothing unless the entry is an
/// application with a name and an exec value; otherwise the entry with
/// its exec stripped of field codes, taking arguments only when it is
/// a web browser whose raw exec had a standalone argument code.
pub open spec fn entry_from_fields(st: EntryFieldsView, filename: Seq<char>) -> Option<
    DesktopEntryView,
> {
    if st.type_entry != "Application"@ || st.name.len() == 0 || st.exec_cmd.len() == 0 {
        None
    } else {
        Some(
            DesktopEntryView {
                name: st.name,
                exec_cmd: strip_codes_seq(st.exec_cmd),
                icon: st.icon,
                filename: filename,
                takes_args: has_webbrowser_category(st.categories) && has_argument_code(
                    st.exec_cmd,
                ),
                categories: st.categories,
            },
        )
    }
}

impl DesktopEntryData {
    /// Finishes a parse, validating the accumulated fields.
    pub fn build_app_info(self, filename: &str) -> (r: Option<DesktopEntry>)
        ensures
            match r {
                Some(e) => entry_from_fields(self@, filename@) == Some(e@),
                None => entry_from_fields(self@, filename@) is None,
            },
    {
        if !str_eq(self.type_entry.as_str(), "Application") || self.name.as_str().is_empty()
            || self.exec_cmd.as_str().is_empty() {
            return None;
        }
        let raw = chars_of(self.exec_cmd.as_str());
        let takes_args = is_webbrowser(&self.categories) && exec_takes_argument(&raw);
        let stripped = strip_field_codes(self.exec_cmd.as_str());
        let e = DesktopEntry {
            name: self.name,
            exec_cmd: stripped,
            icon: self.icon,
            filename: crate::text::chars_to_owned(filename),
            takes_args: takes_args,
            categories: self.categories,
        };
        proof {
            assert(e@ =~= entry_from_fields(self@, filename@).unwrap());
        }
        Some(e)
    }
}

/// Folding one more line at the end is applying it to the fold so far.
proof fn lemma_fold_snoc(st: EntryFieldsView, lines: Seq<Seq<char>>, line: Seq<char>)
    ensures
        fold_lines(st, lines.push(line)) == apply_line(fold_lines(st, lines), line),
    decreases lines.len(),
{
    if lines.len() == 0 {
        assert(lines.push(line).first() == line);
        assert(lines.push(line).drop_first() =~~= Seq::<Seq<char>>::empty());
        assert(fold_lines(st, lines.push(line)) == fold_lines(
            apply_line(st, line),
            Seq::<Seq<char>>::empty(),
        ));
    } else {
        assert(lines.push(line).first() == lines.first());
        assert(lines.push(line).drop_first() =~~= lines.drop_first().push(line));
        lemma_fold_snoc(apply_line(st, lines.first()), lines.drop_first(), line);
        assert(fold_lines(st, lines.push(line)) == fold_lines(
            apply_line(st, lines.first()),
            lines.drop_first().push(line),
        ));
        assert(fold_lines(st, lines) == fold_lines(
            apply_line(st, lines.first()),
            lines.drop_first(),
        ));
    }
}

/// The parse of one desktop file, as mathematics.
pub open spec fn parse_spec(lines: Seq<Seq<char>>, filename: Seq<char>) -> Option<DesktopEntryView> {
    entry_from_fields(fold_lines(init_fields(), lines), filename)
}

/// Parses the lines of one desktop file.
pub fn parse_desktop_file(lines: &Vec<String>, filename: &str) -> (r: Option<DesktopEntry>)
    ensures
        match r {
            Some(e) => parse_spec(lines.deep_view(), filename@) == Some(e@),
            None => parse_spec(lines.deep_view(), filename@) is None,
        },
{
    let mut data = DesktopEntryData::new();
    let mut i: usize = 0;
    proof {
        assert(lines.deep_view().take(0int) =~= Seq::<Seq<char>>::empty());
    }
    while i < lines.len()
        invariant
            i <= lines@.len(),
            lines.deep_view().len() == lines@.len(),
            data@ == fold_lines(init_fields(), lines.deep_view().take(i as int)),
        decreases lines@.len() - i,
    {
        proof {
            assert(lines.deep_view().take(i + 1) =~= lines.deep_view().take(i as int).push(
                lines.deep_view()[i as int],
            ));
            lemma_fold_snoc(
                init_fields(),
                lines.deep_view().take(i as int),
                lines.deep_view()[i as int],
            );
            assert(lines.deep_view()[i as int] == lines@[i as int]@);
        }
        data.apply_line_exec(lines[i].as_str());
        i = i + 1;
    }
    proof {
        assert(lines.deep_view().take(lines@.len() as int) =~= lines.deep_view());
    }
    data.build_app_info(filename)
}

/// The raw text of one desktop file, as the walk found it.
pub struct DesktopFile {
    pub filename: String,
    pub lines: Vec<String>,
}

/// The entry is the parse of one of the files.
pub open spec fn parsed_from(files: Seq<DesktopFile>, e: DesktopEntryView) -> bool {
    exists|j: int|
        0 <= j < files.len() && parse_spec(
            (#[trigger] files[j]).lines.deep_view(),
            files[j].filename@,
        ) == Some(e)
}

/// Some kept entry is this parse result.
pub open spec fn keeps_parse(out: Seq<DesktopEntry>, v: Option<DesktopEntryView>) -> bool {
    exists|k: int| 0 <= k < out.len() && Some((#[trigger] out[k])@) == v
}

/// Parses every desktop file the walk found, keeping valid entries.
pub fn scan_desktopentries(files: &Vec<DesktopFile>) -> (r: Vec<DesktopEntry>)
    ensures
        forall|k: int| 0 <= k < r@.len() ==> parsed_from(files@, (#[trigger] r@[k])@),
        forall|j: int|
            0 <= j < files@.len() && parse_spec(
                (#[trigger] files@[j]).lines.deep_view(),
                files@[j].filename@,
            ) is Some ==> keeps_parse(
                r@,
                parse_spec(files@[j].lines.deep_view(), files@[j].filename@),
            ),
{
    let mut out: Vec<DesktopEntry> = Vec::new();
    let mut i: usize = 0;
    while i < files.len()
        invariant
            i <= files@.len(),
            forall|k: int| 0 <= k < out@.len() ==> parsed_from(files@, (#[trigger] out@[k])@),
            forall|j: int|
                0 <= j < i && parse_spec(
                    (#[trigger] files@[j]).lines.deep_view(),
                    files@[j].filename@,
                ) is Some ==> keeps_parse(
                    out@,
                    parse_spec(files@[j].lines.deep_view(), files@[j].filename@),
                ),
        decreases files@.len() - i,
    {
        match parse_desktop_file(&files[i].lines, files[i].filename.as_str()) {
            Some(e) => {
                let ghost old_out = out@;
                out.push(e);
                proof {
                    assert(forall|k: int| 0 <= k < old_out.len() ==> out@[k] == old_out[k]);
                    assert(out@[old_out.len() as int] == e);
                    assert(parse_spec(
                        files@[i as int].lines.deep_view(),
                        files@[i as int].filename@,
                    ) == Some(e@));
                    assert(parsed_from(files@, e@));
                    assert forall|j: int|
                        0 <= j < i + 1 && parse_spec(
                            (#[trigger] files@[j]).lines.deep_view(),
                            files@[j].filename@,
                        ) is Some implies keeps_parse(
                        out@,
                        parse_spec(files@[j].lines.deep_view(), files@[j].filename@),
                    ) by {
                        if j < i {
                            let k0 = choose|k0: int|
                                0 <= k0 < old_out.len() && Some((#[trigger] old_out[k0])@)
                                    == parse_spec(
                                    files@[j].lines.deep_view(),
                                    files@[j].filename@,
                                );
                            assert(Some(out@[k0]@) == parse_spec(
                                files@[j].lines.deep_view(),
                                files@[j].filename@,
                            ));
                        } else {
                            assert(Some(out@[old_out.len() as int]@) == parse_spec(
                                files@[j].lines.deep_view(),
                                files@[j].filename@,
                            ));
                        }
                    }
                }
            },
            None => {},
        }
        i = i + 1;
    }
    out
}

#[verifier::ext_equal]
pub struct FileInfoView {
    pub name: Seq<char>,
    pub path: Seq<char>,
    pub file_type: FileType,
}

impl View for FileInfo {
    type V = FileInfoView;

    open spec fn view(&self) -> FileInfoView {
        FileInfoView { name: self.name@, path: self.path@, file_type: self.file_type }
    }
}

/// Every discovered program inserted, in order.
pub open spec fn insert_programs_spec(v: StoreView, xs: Seq<FileInfoView>) -> StoreView
    decreases xs.len(),
{
    if xs.len() == 0 {
        v
    } else {
        insert_programs_spec(
            insert_program_spec(v, xs.first().name, xs.first().path).0,
            xs.drop_first(),
        )
    }
}

/// Every discovered desktop entry inserted, in order.
pub open spec fn insert_desktops_spec(v: StoreView, xs: Seq<DesktopEntryView>) -> StoreView
    decreases xs.len(),
{
    if xs.len() == 0 {
        v
    } else {
        insert_desktops_spec(
            insert_desktop_spec(v, xs.first().name, xs.first().exec_cmd, xs.first().takes_args).0,
            xs.drop_first(),
        )
    }
}

/// What one whole system scan does to the store.
pub open spec fn scan_spec(
    v: StoreView,
    execs: Seq<FileInfoView>,
    ents: Seq<DesktopEntryView>,
) -> StoreView {
    insert_desktops_spec(insert_programs_spec(v, execs), ents)
}

proof fn lemma_insert_programs_snoc(v: StoreView, xs: Seq<FileInfoView>, x: FileInfoView)
    ensures
        insert_programs_spec(v, xs.push(x)) == insert_program_spec(
            insert_programs_spec(v, xs),
            x.name,
            x.path,
        ).0,
    decreases xs.len(),
{
    if xs.len() == 0 {
        assert(xs.push(x).first() == x);
        assert(xs.push(x).drop_first() =~= Seq::<FileInfoView>::empty());
        assert(insert_programs_spec(v, xs.push(x)) == insert_programs_spec(
            insert_program_spec(v, x.name, x.path).0,
            Seq::<FileInfoView>::empty(),
        ));
    } else {
        assert(xs.push(x).first() == xs.first());
        assert(xs.push(x).drop_first() =~= xs.drop_first().push(x));
        lemma_insert_programs_snoc(
            insert_program_spec(v, xs.first().name, xs.first().path).0,
            xs.drop_first(),
            x,
        );
        assert(insert_programs_spec(v, xs.push(x)) == insert_programs_spec(
            insert_program_spec(v, xs.first().name, xs.first().path).0,
            xs.drop_first().push(x),
        ));
        assert(insert_programs_spec(v, xs) == insert_programs_spec(
            insert_program_spec(v, xs.first().name, xs.first().path).0,
            xs.drop_first(),
        ));
    }
}

proof fn lemma_insert_desktops_snoc(v: StoreView, xs: Seq<DesktopEntryView>, x: DesktopEntryView)
    ensures
        insert_desktops_spec(v, xs.push(x)) == insert_desktop_spec(
            insert_desktops_spec(v, xs),
            x.name,
            x.exec_cmd,
            x.takes_args,
        ).0,
    decreases xs.len(),
{
    if xs.len() == 0 {
        assert(xs.push(x).first() == x);
        assert(xs.push(x).drop_first() =~= Seq::<DesktopEntryView>::empty());
        assert(insert_desktops_spec(v, xs.push(x)) == insert_desktops_spec(
            insert_desktop_spec(v, x.name, x.exec_cmd, x.takes_args).0,
            Seq::<DesktopEntryView>::empty(),
        ));
    } else {
        assert(xs.push(x).first() == xs.first());
        assert(xs.push(x).drop_first() =~= xs.drop_first().push(x));
        lemma_insert_desktops_snoc(
            insert_desktop_spec(v, xs.first().name, xs.first().exec_cmd, xs.first().takes_args).0,
            xs.drop_first(),
            x,
        );
        assert(insert_desktops_spec(v, xs.push(x)) == insert_desktops_spec(
            insert_desktop_spec(v, xs.first().name, xs.first().exec_cmd, xs.first().takes_args).0,
            xs.drop_first().push(x),
        ));
        assert(insert_desktops_spec(v, xs) == insert_desktops_spec(
            insert_desktop_spec(v, xs.first().name, xs.first().exec_cmd, xs.first().takes_args).0,
            xs.drop_first(),
        ));
    }
}

/// Inserting a program keeps the store well formed, never shrinks it,
/// and leaves a discovered row behind whenever there was room.
pub proof fn lemma_insert_program_fills(v: StoreView, name: Seq<char>, path: Seq<char>)
    requires
        wf_view(v),
    ensures
        wf_view(insert_program_spec(v, name, path).0),
        insert_program_spec(v, name, path).0.actions.len() >= v.actions.len(),
        !needs_scan_view(v) ==> !needs_scan_view(insert_program_spec(v, name, path).0),
        v.actions.len() < ACTION_CAP ==> !needs_scan_view(insert_program_spec(v, name, path).0),
{
    crate::store::lemma_insert_action_effect(v, name, ActionKind::Program);
    let (va, id) = crate::store::insert_action_spec(v, name, ActionKind::Program);
    assert(forall|i: int| 0 <= i < v.actions.len() ==> #[trigger] va.actions[i] == v.actions[i]);
    if !needs_scan_view(v) {
        let w = choose|w: int|
            0 <= w < v.actions.len() && (v.actions[w].kind == ActionKind::Program
                || v.actions[w].kind == ActionKind::Desktop);
        assert(va.actions[w] == v.actions[w]);
        assert(!needs_scan_view(va));
    }
    if v.actions.len() < ACTION_CAP {
        assert(id != 0);
        assert(va.actions[id - 1].kind == ActionKind::Program);
        assert(!needs_scan_view(va));
    }
}

/// Inserting a desktop entry, likewise.
pub proof fn lemma_insert_desktop_fills(
    v: StoreView,
    name: Seq<char>,
    exec_cmd: Seq<char>,
    accepts_args: bool,
)
    requires
        wf_view(v),
    ensures
        wf_view(insert_desktop_spec(v, name, exec_cmd, accepts_args).0),
        insert_desktop_spec(v, name, exec_cmd, accepts_args).0.actions.len() >= v.actions.len(),
        !needs_scan_view(v) ==> !needs_scan_view(
            insert_desktop_spec(v, name, exec_cmd, accepts_args).0,
        ),
        v.actions.len() < ACTION_CAP ==> !needs_scan_view(
            insert_desktop_spec(v, name, exec_cmd, accepts_args).0,
        ),
{
    crate::store::lemma_insert_action_effect(v, name, ActionKind::Desktop);
    let (va, id) = crate::store::insert_action_spec(v, name, ActionKind::Desktop);
    assert(forall|i: int| 0 <= i < v.actions.len() ==> #[trigger] va.actions[i] == v.actions[i]);
    if !needs_scan_view(v) {
        let w = choose|w: int|
            0 <= w < v.actions.len() && (v.actions[w].kind == ActionKind::Program
                || v.actions[w].kind == ActionKind::Desktop);
        assert(va.actions[w] == v.actions[w]);
        assert(!needs_scan_view(va));
    }
    if v.actions.len() < ACTION_CAP {
        assert(id != 0);
        assert(va.actions[id - 1].kind == ActionKind::Desktop);
        assert(!needs_scan_view(va));
    }
}

proof fn lemma_insert_programs_fills(v: StoreView, xs: Seq<FileInfoView>)
    requires
        wf_view(v),
    ensures
        wf_view(insert_programs_spec(v, xs)),
        insert_programs_spec(v, xs).actions.len() >= v.actions.len(),
        !needs_scan_view(v) ==> !needs_scan_view(insert_programs_spec(v, xs)),
        xs.len() >= 1 && v.actions.len() < ACTION_CAP ==> !needs_scan_view(
            insert_programs_spec(v, xs),
        ),
    decreases xs.len(),
{
    if xs.len() > 0 {
        lemma_insert_program_fills(v, xs.first().name, xs.first().path);
        let v1 = insert_program_spec(v, xs.first().name, xs.first().path).0;
        lemma_insert_programs_fills(v1, xs.drop_first());
    }
}

proof fn lemma_insert_desktops_fills(v: StoreView, xs: Seq<DesktopEntryView>)
    requires
        wf_view(v),
    ensures
        wf_view(insert_desktops_spec(v, xs)),
        insert_desktops_spec(v, xs).actions.len() >= v.actions.len(),
        !needs_scan_view(v) ==> !needs_scan_view(insert_desktops_spec(v, xs)),
        xs.len() >= 1 && v.actions.len() < ACTION_CAP ==> !needs_scan_view(
            insert_desktops_spec(v, xs),
        ),
    decreases xs.len(),
{
    if xs.len() > 0 {
        lemma_insert_desktop_fills(v, xs.first().name, xs.first().exec_cmd, xs.first().takes_args);
        let v1 = insert_desktop_spec(v, xs.first().name, xs.first().exec_cmd, xs.first().takes_args).0;
        lemma_insert_desktops_fills(v1, xs.drop_first());
    }
}

/// The scan is owed only while the store is empty of discovered
/// actions; one run that found anything settles it, and a second run
/// cannot unsettle it.
pub proof fn lemma_scan_settles_store(
    v: StoreView,
    execs: Seq<FileInfoView>,
    ents: Seq<DesktopEntryView>,
)
    requires
        wf_view(v),
    ensures
        wf_view(scan_spec(v, execs, ents)),
        needs_scan_view(v) && execs.len() + ents.len() >= 1 ==> !needs_scan_view(
            scan_spec(v, execs, ents),
        ),
        !needs_scan_view(v) ==> !needs_scan_view(scan_spec(v, execs, ents)),
{
    if needs_scan_view(v) {
        assert(v.actions.len() == 0) by {
            if v.actions.len() > 0 {
                let k = v.actions[0].kind;
                assert(k == ActionKind::Program || k == ActionKind::Desktop);
            }
        }
    }
    lemma_insert_programs_fills(v, execs);
    let v1 = insert_programs_spec(v, execs);
    lemma_insert_desktops_fills(v1, ents);
}

/// A store with no rows owes a scan.
pub proof fn lemma_empty_store_needs_scan(v: StoreView)
    requires
        v.actions.len() == 0,
    ensures
        needs_scan_view(v),
{
}

/// The scan coordinator: decides whether discovery must run, and folds
/// what discovery found into the store with the idempotent inserts.
pub struct ActionScanner;

impl ActionScanner {
    /// The scan is owed exactly when the store has no discovered action.
    pub fn needs_scan(store: &ActionStore) -> (r: bool)
        requires
            store.wf(),
        ensures
            r == needs_scan_view(store@),
    {
        store.needs_scan()
    }

    /// Folds one discovery run into the store: every found executable,
    /// then every valid desktop entry, through the idempotent inserts.
    pub fn scan_system(
        store: &mut ActionStore,
        executables: &Vec<FileInfo>,
        entries: &Vec<DesktopEntry>,
    )
        requires
            old(store).wf(),
        ensures
            final(store).wf(),
            final(store)@ == scan_spec(
                old(store)@,
                executables@.map_values(|f: FileInfo| f@),
                entries@.map_values(|e: DesktopEntry| e@),
            ),
    {
        let ghost oldv = store@;
        let ghost evs = executables@.map_values(|f: FileInfo| f@);
        let ghost dvs = entries@.map_values(|e: DesktopEntry| e@);
        let mut i: usize = 0;
        proof {
            assert(evs.take(0int) =~= Seq::<FileInfoView>::empty());
        }
        while i < executables.len()
            invariant
                store.wf(),
                i <= executables@.len(),
                evs == executables@.map_values(|f: FileInfo| f@),
                evs.len() == executables@.len(),
                store@ == insert_programs_spec(oldv, evs.take(i as int)),
            decreases executables@.len() - i,
        {
            proof {
                assert(evs.take(i + 1) =~= evs.take(i as int).push(evs[i as int]));
                lemma_insert_programs_snoc(oldv, evs.take(i as int), evs[i as int]);
                assert(evs[i as int] == executables@[i as int]@);
            }
            store.insert_program(executables[i].name.as_str(), executables[i].path.as_str());
            i = i + 1;
        }
        proof {
            assert(evs.take(evs.len() as int) =~= evs);
        }
        let ghost midv = store@;
        let mut j: usize = 0;
        proof {
            assert(dvs.take(0int) =~= Seq::<DesktopEntryView>::empty());
        }
        while j < entries.len()
            invariant
                store.wf(),
                j <= entries@.len(),
                dvs == entries@.map_values(|e: DesktopEntry| e@),
                dvs.len() == entries@.len(),
                midv == insert_programs_spec(oldv, evs),
                store@ == insert_desktops_spec(midv, dvs.take(j as int)),
            decreases entries@.len() - j,
        {
            proof {
                assert(dvs.take(j + 1) =~= dvs.take(j as int).push(dvs[j as int]));
                lemma_insert_desktops_snoc(midv, dvs.take(j as int), dvs[j as int]);
                assert(dvs[j as int] == entries@[j as int]@);
            }
            store.insert_desktop(
                entries[j].name.as_str(),
                entries[j].exec_cmd.as_str(),
                entries[j].takes_args,
            );
            j = j + 1;
        }
        proof {
            assert(dvs.take(dvs.len() as int) =~= dvs);
        }
    }
}

} // verus!
