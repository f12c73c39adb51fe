//! Character and string utilities the matcher is built on: the
//! `searchname` projection, substring search, tokenization and
//! lexicographic comparison, all specified over `Seq<char>`.

use vstd::prelude::*;
use vstd::string::StrSliceExecFns;

verus! {

/// Whitespace as the engine understands it: the four ASCII blanks.
pub open spec fn is_space_char(c: char) -> bool {
    c == ' ' || c == '\t' || c == '\n' || c == '\r'
}

pub open spec fn is_digit_char(c: char) -> bool {
    48 <= c as u32 && c as u32 <= 57
}

pub open spec fn is_upper_char(c: char) -> bool {
    65 <= c as u32 && c as u32 <= 90
}

pub open spec fn is_lower_char(c: char) -> bool {
    97 <= c as u32 && c as u32 <= 122
}

/// A character that takes part in matching: an ASCII letter or digit.
pub open spec fn is_word_char(c: char) -> bool {
    is_digit_char(c) || is_upper_char(c) || is_lower_char(c)
}

/// ASCII lowercasing of a single character; anything else, including
/// non-ASCII letters, is kept as it is.
pub open spec fn lower_char(c: char) -> char {
    if is_upper_char(c) {
        ((c as u8) + 32) as char
    } else {
        c
    }
}

/// The `searchname` projection of a name: lowercased, with everything
/// but letters, digits and blanks removed, so punctuation never affects
/// ranking. The model is deliberately ASCII: characters outside the
/// ASCII letters and digits are treated as punctuation and dropped,
/// and only ASCII uppercase letters are folded.
pub open spec fn searchname_seq(s: Seq<char>) -> Seq<char>
    decreases s.len(),
{
    if s.len() == 0 {
        Seq::empty()
    } else {
        let prefix = searchname_seq(s.drop_last());
        let c = s.last();
        if is_word_char(c) || is_space_char(c) {
            prefix.push(lower_char(c))
        } else {
            prefix
        }
    }
}

/// Exec mirror of `is_space_char`.
pub fn space_char(c: char) -> (r: bool)
    ensures
        r == is_space_char(c),
{
    c == ' ' || c == '\t' || c == '\n' || c == '\r'
}

/// Exec mirror of `is_word_char`.
pub fn word_char(c: char) -> (r: bool)
    ensures
        r == is_word_char(c),
{
    let n = c as u32;
    (48 <= n && n <= 57) || (65 <= n && n <= 90) || (97 <= n && n <= 122)
}

/// Exec mirror of `lower_char`.
pub fn lowercase_char(c: char) -> (r: char)
    ensures
        r == lower_char(c),
{
    let n = c as u32;
    if 65 <= n && n <= 90 {
        ((c as u8) + 32) as char
    } else {
        c
    }
}

/// Computes the searchname projection of a list of characters.
pub fn searchname_chars(s: &Vec<char>) -> (r: Vec<char>)
    ensures
        r@ == searchname_seq(s@),
{
    let mut out: Vec<char> = Vec::new();
    let mut i: usize = 0;
    while i < s.len()
        invariant
            i <= s.len(),
            out@ == searchname_seq(s@.take(i as int)),
        decreases s.len() - i,
    {
        let c = s[i];
        proof {
            assert(s@.take(i + 1).drop_last() =~= s@.take(i as int));
            assert(s@.take(i + 1).last() == s@[i as int]);
        }
        if word_char(c) || space_char(c) {
            out.push(lowercase_char(c));
        }
        i = i + 1;
    }
    proof {
        assert(s@.take(s@.len() as int) =~= s@);
    }
    out
}

/// The characters of a string slice, as a vector.
pub fn chars_of(s: &str) -> (r: Vec<char>)
    ensures
        r@ == s@,
{
    let n = s.unicode_len();
    let mut out: Vec<char> = Vec::new();
    let mut i: usize = 0;
    while i < n
        invariant
            i <= n,
            n == s@.len(),
            out@ == s@.take(i as int),
        decreases n - i,
    {
        let c = s.get_char(i);
        out.push(c);
        proof {
            assert(out@ =~= s@.take(i + 1));
        }
        i = i + 1;
    }
    proof {
        assert(s@.take(n as int) =~= s@);
    }
    out
}

/// Builds an owned string out of a vector of characters.
pub fn string_from_chars(s: &Vec<char>) -> (r: String)
    ensures
        r@ == s@,
{
    let mut out = String::new();
    let mut i: usize = 0;
    while i < s.len()
        invariant
            i <= s.len(),
            out@ == s@.take(i as int),
        decreases s.len() - i,
    {
        out.push(s[i]);
        proof {
            assert(out@ =~= s@.take(i + 1));
        }
        i = i + 1;
    }
    proof {
        assert(s@.take(s@.len() as int) =~= s@);
    }
    out
}

/// An owned copy of a string slice.
pub fn chars_to_owned(s: &str) -> (r: String)
    ensures
        r@ == s@,
{
    s.to_owned()
}

/// String slice equality, decided character by character.
pub fn str_eq(a: &str, b: &str) -> (r: bool)
    ensures
        r == (a@ == b@),
{
    let na = a.unicode_len();
    let nb = b.unicode_len();
    if na != nb {
        proof {
            assert(a@ != b@) by {
                assert(a@.len() != b@.len());
            }
        }
        return false;
    }
    let mut i: usize = 0;
    while i < na
        invariant
            i <= na,
            na == a@.len(),
            na == b@.len(),
            forall|j: int| 0 <= j < i ==> a@[j] == b@[j],
        decreases na - i,
    {
        if a.get_char(i) != b.get_char(i) {
            return false;
        }
        i = i + 1;
    }
    proof {
        assert(a@ =~= b@);
    }
    true
}

/// Equality of two character vectors.
pub fn chars_eq(a: &Vec<char>, b: &Vec<char>) -> (r: bool)
    ensures
        r == (a@ == b@),
{
    if a.len() != b.len() {
        proof {
            assert(a@ != b@) by {
                assert(a@.len() != b@.len());
            }
        }
        return false;
    }
    let mut i: usize = 0;
    while i < a.len()
        invariant
            i <= a.len(),
            a@.len() == b@.len(),
            forall|j: int| 0 <= j < i ==> a@[j] == b@[j],
        decreases a.len() - i,
    {
        if a[i] != b[i] {
            return false;
        }
        i = i + 1;
    }
    proof {
        assert(a@ =~= b@);
    }
    true
}

/// Lowercasing an uppercase letter moves its code up by 32.
pub proof fn lemma_lower_char_code(c: char)
    requires
        is_upper_char(c),
    ensures
        lower_char(c) as u32 == c as u32 + 32,
{
}

/// ASCII lowercasing of a whole sequence.
pub open spec fn lower_seq(s: Seq<char>) -> Seq<char> {
    s.map_values(|c: char| lower_char(c))
}

/// Lowercases a character vector.
pub fn lowercase_chars(s: &Vec<char>) -> (r: Vec<char>)
    ensures
        r@ == lower_seq(s@),
{
    let mut out: Vec<char> = Vec::new();
    let mut i: usize = 0;
    while i < s.len()
        invariant
            i <= s@.len(),
            out@.len() == i,
            forall|k: int| 0 <= k < i ==> out@[k] == lower_char(s@[k]),
        decreases s.len() - i,
    {
        out.push(lowercase_char(s[i]));
        i = i + 1;
    }
    proof {
        assert(out@ =~= lower_seq(s@));
    }
    out
}

/// On a name of letters, digits and blanks only, the searchname
/// projection is plain lowercasing: nothing gets dropped.
pub proof fn lemma_searchname_of_clean(s: Seq<char>)
    requires
        forall|i: int| 0 <= i < s.len() ==> is_word_char(#[trigger] s[i]) || is_space_char(s[i]),
    ensures
        searchname_seq(s) == lower_seq(s),
    decreases s.len(),
{
    if s.len() > 0 {
        assert forall|i: int| 0 <= i < s.drop_last().len() implies is_word_char(
            #[trigger] s.drop_last()[i],
        ) || is_space_char(s.drop_last()[i]) by {
            assert(s.drop_last()[i] == s[i]);
        }
        lemma_searchname_of_clean(s.drop_last());
        assert(is_word_char(s.last()) || is_space_char(s.last()));
        assert(lower_seq(s) =~= lower_seq(s.drop_last()).push(lower_char(s.last())));
    } else {
        assert(lower_seq(s) =~= searchname_seq(s));
    }
}

/// Every character is blank.
pub open spec fn all_space(s: Seq<char>) -> bool {
    forall|i: int| 0 <= i < s.len() ==> is_space_char(s[i])
}

/// Decides `all_space`: nothing in the sequence to match on.
pub fn all_space_chars(s: &Vec<char>) -> (r: bool)
    ensures
        r == all_space(s@),
{
    let mut i: usize = 0;
    while i < s.len()
        invariant
            i <= s@.len(),
            forall|k: int| 0 <= k < i ==> is_space_char(s@[k]),
        decreases s.len() - i,
    {
        if !space_char(s[i]) {
            return false;
        }
        i = i + 1;
    }
    true
}

/// The character of a decimal digit.
pub open spec fn digit_char(d: int) -> char {
    ((48 + d) as u8) as char
}

/// The decimal notation of a non-negative integer.
pub open spec fn dec_str(n: int) -> Seq<char>
    decreases n,
{
    if n < 10 {
        seq![digit_char(n)]
    } else {
        dec_str(n / 10).push(digit_char(n % 10))
    }
}

/// Formats an integer id in decimal, as the ledger keys dynamic actions.
pub fn u64_to_string(n: u64) -> (r: String)
    ensures
        r@ == dec_str(n as int),
{
    if n < 10 {
        let mut v: Vec<char> = Vec::new();
        v.push((48 + (n as u8)) as char);
        proof {
            assert(v@ =~= dec_str(n as int));
        }
        return string_from_chars(&v);
    }
    let mut digits: Vec<char> = Vec::new();
    let mut m: u64 = n;
    while m > 0
        invariant
            m >= 0,
            m == 0 ==> digits@ == dec_str(n as int),
            m > 0 ==> dec_str(n as int) == dec_str(m as int) + digits@,
        decreases m,
    {
        let c = (48 + ((m % 10) as u8)) as char;
        let ghost old_digits = digits@;
        digits.insert(0, c);
        proof {
            assert(digits@ =~= seq![c] + old_digits);
            assert(c == digit_char((m as int) % 10));
            if m < 10 {
                assert(dec_str(m as int) == seq![digit_char(m as int)]);
                assert(digit_char(m as int) == c);
                assert(dec_str(n as int) =~= digits@);
            } else {
                assert(dec_str(m as int) == dec_str((m as int) / 10).push(
                    digit_char((m as int) % 10),
                ));
                assert(dec_str(m as int) =~= dec_str((m as int) / 10) + seq![c]);
                assert(dec_str((m as int) / 10) + seq![c] + old_digits =~= dec_str(
                    (m as int) / 10,
                ) + digits@);
                assert(dec_str(n as int) =~= dec_str((m as int) / 10) + digits@);
                assert((m as int) / 10 == (m / 10) as int);
            }
        }
        m = m / 10;
    }
    string_from_chars(&digits)
}

/// `needle` occurs in `hay` starting at position `i`.
pub open spec fn occurs_at(hay: Seq<char>, needle: Seq<char>, i: int) -> bool {
    &&& 0 <= i
    &&& i + needle.len() <= hay.len()
    &&& forall|j: int| 0 <= j < needle.len() ==> hay[i + j] == needle[j]
}

/// `needle` occurs somewhere in `hay`.
pub open spec fn contains_seq(hay: Seq<char>, needle: Seq<char>) -> bool {
    exists|i: int| occurs_at(hay, needle, i)
}

/// `hay` begins with `needle`.
pub open spec fn starts_with_seq(hay: Seq<char>, needle: Seq<char>) -> bool {
    occurs_at(hay, needle, 0)
}

/// Decides whether `needle` occurs in `hay` at position `i`.
pub fn matches_at(hay: &Vec<char>, needle: &Vec<char>, i: usize) -> (r: bool)
    requires
        i + needle@.len() <= hay@.len(),
    ensures
        r == occurs_at(hay@, needle@, i as int),
{
    let hay_len = hay.len();
    let mut j: usize = 0;
    while j < needle.len()
        invariant
            j <= needle@.len(),
            i + needle@.len() <= hay@.len(),
            hay@.len() == hay_len,
            forall|k: int| 0 <= k < j ==> hay@[i + k] == needle@[k],
        decreases needle.len() - j,
    {
        if hay[i + j] != needle[j] {
            return false;
        }
        j = j + 1;
    }
    true
}

/// Substring search.
pub fn contains_chars(hay: &Vec<char>, needle: &Vec<char>) -> (r: bool)
    ensures
        r == contains_seq(hay@, needle@),
{
    if needle.len() == 0 {
        proof {
            assert(occurs_at(hay@, needle@, 0));
        }
        return true;
    }
    if needle.len() > hay.len() {
        return false;
    }
    let last = hay.len() - needle.len();
    let mut i: usize = 0;
    while i <= last
        invariant
            i <= last + 1,
            1 <= needle@.len(),
            last == hay@.len() - needle@.len(),
            hay@.len() <= usize::MAX,
            forall|k: int| 0 <= k < i ==> !occurs_at(hay@, needle@, k),
        decreases last + 1 - i,
    {
        if matches_at(hay, needle, i) {
            return true;
        }
        i = i + 1;
    }
    false
}

/// Prefix test.
pub fn starts_with_chars(hay: &Vec<char>, needle: &Vec<char>) -> (r: bool)
    ensures
        r == starts_with_seq(hay@, needle@),
{
    if needle.len() > hay.len() {
        return false;
    }
    matches_at(hay, needle, 0)
}

/// Lexicographic order on character sequences, by code point.
pub open spec fn lex_le(a: Seq<char>, b: Seq<char>) -> bool
    decreases a.len(),
{
    if a.len() == 0 {
        true
    } else if b.len() == 0 {
        false
    } else if a[0] != b[0] {
        (a[0] as u32) < (b[0] as u32)
    } else {
        lex_le(a.skip(1), b.skip(1))
    }
}

/// Two characters with the same code point are the same character.
pub proof fn lemma_char_code_injective(a: char, b: char)
    requires
        a as u32 == b as u32,
    ensures
        a == b,
{
}

/// `lex_le` is total: one direction always holds.
pub proof fn lemma_lex_le_total(a: Seq<char>, b: Seq<char>)
    ensures
        lex_le(a, b) || lex_le(b, a),
    decreases a.len(),
{
    if a.len() == 0 || b.len() == 0 {
    } else if a[0] != b[0] {
        if a[0] as u32 == b[0] as u32 {
            lemma_char_code_injective(a[0], b[0]);
        }
    } else {
        lemma_lex_le_total(a.skip(1), b.skip(1));
    }
}

/// `lex_le` is transitive.
pub proof fn lemma_lex_le_trans(a: Seq<char>, b: Seq<char>, c: Seq<char>)
    requires
        lex_le(a, b),
        lex_le(b, c),
    ensures
        lex_le(a, c),
    decreases a.len(),
{
    if a.len() == 0 || b.len() == 0 || c.len() == 0 {
    } else if a[0] == b[0] && b[0] == c[0] {
        lemma_lex_le_trans(a.skip(1), b.skip(1), c.skip(1));
    } else if a[0] == b[0] {
        assert((b[0] as u32) < (c[0] as u32));
    } else if b[0] == c[0] {
        assert((a[0] as u32) < (b[0] as u32));
    } else {
        assert((a[0] as u32) < (c[0] as u32));
        if a[0] as u32 == c[0] as u32 {
            lemma_char_code_injective(a[0], c[0]);
        }
        assert(a[0] != c[0]);
    }
}

/// Decides `lex_le` on character vectors.
pub fn lex_le_chars(a: &Vec<char>, b: &Vec<char>) -> (r: bool)
    ensures
        r == lex_le(a@, b@),
{
    let mut i: usize = 0;
    proof {
        assert(a@.skip(0) =~= a@);
        assert(b@.skip(0) =~= b@);
    }
    while i < a.len() && i < b.len()
        invariant
            i <= a@.len(),
            i <= b@.len(),
            lex_le(a@, b@) == lex_le(a@.skip(i as int), b@.skip(i as int)),
            lex_le(b@, a@) == lex_le(b@.skip(i as int), a@.skip(i as int)),
        decreases a.len() - i,
    {
        let ca = a[i];
        let cb = b[i];
        proof {
            assert(a@.skip(i as int)[0] == a@[i as int]);
            assert(b@.skip(i as int)[0] == b@[i as int]);
            assert(a@.skip(i as int).skip(1) =~= a@.skip(i + 1));
            assert(b@.skip(i as int).skip(1) =~= b@.skip(i + 1));
        }
        if ca != cb {
            return (ca as u32) < (cb as u32);
        }
        i = i + 1;
    }
    proof {
        if i >= a.len() {
            assert(a@.skip(i as int).len() == 0);
        } else {
            assert(b@.skip(i as int).len() == 0);
            assert(a@.skip(i as int).len() > 0);
        }
    }
    i >= a.len()
}


/// The sequence with leading and trailing blanks removed.
pub open spec fn trim_seq(s: Seq<char>) -> Seq<char>
    decreases s.len(),
{
    if s.len() == 0 {
        s
    } else if is_space_char(s[0]) {
        trim_seq(s.skip(1))
    } else if is_space_char(s.last()) {
        trim_seq(s.drop_last())
    } else {
        s
    }
}

/// Trims blanks off both ends of a character vector.
pub fn trim_chars(s: &Vec<char>) -> (r: Vec<char>)
    ensures
        r@ == trim_seq(s@),
{
    let n = s.len();
    let mut a: usize = 0;
    proof {
        assert(s@.skip(0) =~= s@);
    }
    while a < n && space_char(s[a])
        invariant
            a <= n,
            n == s@.len(),
            forall|k: int| 0 <= k < a ==> is_space_char(s@[k]),
            trim_seq(s@) == trim_seq(s@.skip(a as int)),
        decreases n - a,
    {
        proof {
            assert(s@.skip(a as int)[0] == s@[a as int]);
            assert(s@.skip(a as int).skip(1) =~= s@.skip(a + 1));
        }
        a = a + 1;
    }
    let mut b: usize = n;
    proof {
        assert(s@.skip(a as int).take(n - a) =~= s@.skip(a as int));
    }
    while b > a && space_char(s[b - 1])
        invariant
            a <= b <= n,
            n == s@.len(),
            a < n ==> !is_space_char(s@[a as int]),
            trim_seq(s@) == trim_seq(s@.skip(a as int).take(b - a)),
        decreases b,
    {
        proof {
            let t = s@.skip(a as int).take(b - a);
            assert(t.len() > 0);
            assert(t.last() == s@[b - 1]);
            assert(t[0] == s@[a as int]);
            assert(t.drop_last() =~= s@.skip(a as int).take(b - 1 - a));
        }
        b = b - 1;
    }
    proof {
        let t = s@.skip(a as int).take(b - a);
        if t.len() > 0 {
            assert(t[0] == s@[a as int]);
            assert(t.last() == s@[b - 1]);
        }
        assert(trim_seq(t) == t);
        assert(s@.skip(a as int).take(b - a) =~= s@.subrange(a as int, b as int));
    }
    let mut out: Vec<char> = Vec::new();
    let mut i: usize = a;
    while i < b
        invariant
            a <= i <= b <= n,
            n == s@.len(),
            out@ == s@.subrange(a as int, i as int),
        decreases b - i,
    {
        out.push(s[i]);
        proof {
            assert(out@ =~= s@.subrange(a as int, i + 1));
        }
        i = i + 1;
    }
    out
}

/// The index of the first occurrence of a character; negative when it
/// does not occur.
pub open spec fn first_index_of(s: Seq<char>, c: char) -> int
    decreases s.len(),
{
    if s.len() == 0 {
        -1
    } else if s[0] == c {
        0
    } else {
        let r = first_index_of(s.skip(1), c);
        if r < 0 {
            -1
        } else {
            r + 1
        }
    }
}

pub proof fn lemma_first_index_of(s: Seq<char>, c: char)
    ensures
        first_index_of(s, c) < s.len(),
        first_index_of(s, c) >= 0 ==> s[first_index_of(s, c)] == c && (forall|k: int|
            0 <= k < first_index_of(s, c) ==> s[k] != c),
        first_index_of(s, c) < 0 ==> forall|k: int| 0 <= k < s.len() ==> s[k] != c,
    decreases s.len(),
{
    if s.len() > 0 && s[0] != c {
        lemma_first_index_of(s.skip(1), c);
        let r = first_index_of(s.skip(1), c);
        if r >= 0 {
            assert(s[r + 1] == s.skip(1)[r]);
            assert forall|k: int| 0 <= k < r + 1 implies s[k] != c by {
                if k >= 1 {
                    assert(s.skip(1)[k - 1] == s[k]);
                }
            }
        } else {
            assert forall|k: int| 0 <= k < s.len() implies s[k] != c by {
                if k >= 1 {
                    assert(s.skip(1)[k - 1] == s[k]);
                }
            }
        }
    }
}

/// Finds the first occurrence of a character.
pub fn find_char(s: &Vec<char>, c: char) -> (r: Option<usize>)
    ensures
        match r {
            Some(i) => i as int == first_index_of(s@, c),
            None => first_index_of(s@, c) < 0,
        },
{
    let mut i: usize = 0;
    while i < s.len()
        invariant
            i <= s@.len(),
            forall|k: int| 0 <= k < i ==> s@[k] != c,
        decreases s@.len() - i,
    {
        if s[i] == c {
            proof {
                lemma_first_index_of(s@, c);
            }
            return Some(i);
        }
        i = i + 1;
    }
    proof {
        lemma_first_index_of(s@, c);
    }
    None
}

} // verus!
