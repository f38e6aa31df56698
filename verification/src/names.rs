//! Character-level logic on member and file names: ASCII lower-casing used to
//! normalize algorithm names, file-stem and extension computation, and
//! sanitization of archive member names.

use vstd::prelude::*;

verus! {

/// ASCII lower-casing of a single character; other characters are unchanged.
pub open spec fn lower_char(c: char) -> char {
    if 'A' <= c && c <= 'Z' {
        (((c as u8) + 32) as u8) as char
    } else {
        c
    }
}

/// ASCII lower-casing of a character sequence.
pub open spec fn lower(s: Seq<char>) -> Seq<char> {
    Seq::new(s.len(), |i: int| lower_char(s[i]))
}

/// Relies on std's String::push: appends exactly the given character.
#[verifier::external_body]
fn push_char(s: &mut String, c: char)
    ensures
        final(s)@ == old(s)@.push(c),
{
    s.push(c);
}

/// Lower-cases the ASCII letters of `s`; all other characters are kept.
pub fn ascii_lower(s: &str) -> (r: String)
    ensures
        r@ == lower(s@),
{
    let n: usize = s.unicode_len();
    let mut out = String::new();
    let mut i: usize = 0;
    while i < n
        invariant
            n == s@.len(),
            i <= n,
            out@ == lower(s@).take(i as int),
        decreases n - i,
    {
        let c = s.get_char(i);
        let lc: char = if 'A' <= c && c <= 'Z' {
            (((c as u8) + 32) as u8) as char
        } else {
            c
        };
        push_char(&mut out, lc);
        proof {
            assert(out@ =~= lower(s@).take(i + 1 as int));
        }
        i = i + 1;
    }
    proof {
        assert(out@ =~= lower(s@));
    }
    out
}

/// Decides whether two strings are equal.
pub fn str_eq(a: &str, b: &str) -> (r: bool)
    ensures
        r == (a@ == b@),
{
    let na: usize = a.unicode_len();
    let nb: usize = b.unicode_len();
    if na != nb {
        return false;
    }
    let mut i: usize = 0;
    while i < na
        invariant
            na == a@.len(),
            na == b@.len(),
            i <= na,
            forall|j: int| 0 <= j < i ==> a@[j] == b@[j],
        decreases na - i,
    {
        if a.get_char(i) != b.get_char(i) {
            return false;
        }
        i = i + 1;
    }
    proof {
        assert(a@ =~= b@);
    }
    true
}

/// Lexicographic order on character sequences, by code point.
pub open spec fn lex_le(a: Seq<char>, b: Seq<char>) -> bool
    decreases a.len(),
{
    if a.len() == 0 {
        true
    } else if b.len() == 0 {
        false
    } else if a[0] == b[0] {
        lex_le(a.skip(1), b.skip(1))
    } else {
        (a[0] as u32) < (b[0] as u32)
    }
}

/// The lexicographic order is reflexive.
pub proof fn lemma_lex_refl(a: Seq<char>)
    ensures
        lex_le(a, a),
    decreases a.len(),
{
    if a.len() != 0 {
        lemma_lex_refl(a.skip(1));
    }
}

/// The lexicographic order is total.
pub proof fn lemma_lex_total(a: Seq<char>, b: Seq<char>)
    ensures
        lex_le(a, b) || lex_le(b, a),
    decreases a.len(),
{
    if a.len() != 0 && b.len() != 0 {
        if a[0] == b[0] {
            lemma_lex_total(a.skip(1), b.skip(1));
        } else {
            vstd::utf8::char_u32_cast(a[0], a[0] as u32);
            vstd::utf8::char_u32_cast(b[0], b[0] as u32);
        }
    }
}

/// The lexicographic order is transitive.
pub proof fn lemma_lex_trans(a: Seq<char>, b: Seq<char>, c: Seq<char>)
    requires
        lex_le(a, b),
        lex_le(b, c),
    ensures
        lex_le(a, c),
    decreases a.len(),
{
    if a.len() != 0 && b.len() != 0 && c.len() != 0 && a[0] == b[0] && b[0] == c[0] {
        lemma_lex_trans(a.skip(1), b.skip(1), c.skip(1));
    }
}

/// Decides the lexicographic order of two strings.
pub fn str_lex_le(a: &str, b: &str) -> (r: bool)
    ensures
        r == lex_le(a@, b@),
{
    let na: usize = a.unicode_len();
    let nb: usize = b.unicode_len();
    proof {
        assert(a@.skip(0) =~= a@);
        assert(b@.skip(0) =~= b@);
    }
    let mut i: usize = 0;
    while i < na && i < nb
        invariant
            na == a@.len(),
            nb == b@.len(),
            i <= na,
            i <= nb,
            lex_le(a@, b@) == lex_le(a@.skip(i as int), b@.skip(i as int)),
            forall|j: int| 0 <= j < i ==> a@[j] == b@[j],
        decreases na - i,
    {
        let ca = a.get_char(i);
        let cb = b.get_char(i);
        proof {
            assert(a@.skip(i as int)[0] == a@[i as int]);
            assert(b@.skip(i as int)[0] == b@[i as int]);
            assert(a@.skip(i as int).skip(1) =~= a@.skip(i + 1 as int));
            assert(b@.skip(i as int).skip(1) =~= b@.skip(i + 1 as int));
        }
        if ca != cb {
            return (ca as u32) < (cb as u32);
        }
        i = i + 1;
    }
    proof {
        if i >= na {
            assert(a@.skip(i as int).len() == 0);
        } else {
            assert(b@.skip(i as int).len() == 0);
            assert(a@.skip(i as int).len() > 0);
        }
    }
    i >= na
}

/// Decides whether two strings are equal after ASCII lower-casing.
pub fn lower_eq(a: &str, b: &str) -> (r: bool)
    ensures
        r == (lower(a@) == lower(b@)),
{
    let na: usize = a.unicode_len();
    let nb: usize = b.unicode_len();
    if na != nb {
        proof {
            assert(lower(a@).len() != lower(b@).len());
        }
        return false;
    }
    let mut i: usize = 0;
    while i < na
        invariant
            na == a@.len(),
            na == b@.len(),
            i <= na,
            forall|j: int| 0 <= j < i ==> lower(a@)[j] == lower(b@)[j],
        decreases na - i,
    {
        let ca = a.get_char(i);
        let cb = b.get_char(i);
        let la: char = if 'A' <= ca && ca <= 'Z' {
            (((ca as u8) + 32) as u8) as char
        } else {
            ca
        };
        let lb: char = if 'A' <= cb && cb <= 'Z' {
            (((cb as u8) + 32) as u8) as char
        } else {
            cb
        };
        if la != lb {
            proof {
                assert(lower(a@)[i as int] != lower(b@)[i as int]);
            }
            return false;
        }
        i = i + 1;
    }
    proof {
        assert(lower(a@) =~= lower(b@));
    }
    true
}

/// The largest index at which `c` occurs in `s`, or -1 if it does not occur.
pub open spec fn last_pos(s: Seq<char>, c: char) -> int
    decreases s.len(),
{
    if s.len() == 0 {
        -1
    } else if s[s.len() - 1] == c {
        s.len() - 1
    } else {
        last_pos(s.drop_last(), c)
    }
}

pub proof fn lemma_last_pos(s: Seq<char>, c: char)
    ensures
        -1 <= last_pos(s, c) < s.len(),
        last_pos(s, c) >= 0 ==> s[last_pos(s, c)] == c,
        forall|j: int| last_pos(s, c) < j < s.len() ==> s[j] != c,
    decreases s.len(),
{
    if s.len() != 0 && s[s.len() - 1] != c {
        lemma_last_pos(s.drop_last(), c);
        assert(forall|j: int| 0 <= j < s.len() - 1 ==> s[j] == s.drop_last()[j]);
    }
}

/// Finds the last occurrence of `c` in `s`, if any.
pub fn rfind_char(s: &str, c: char) -> (r: Option<usize>)
    ensures
        match r {
            Some(i) => i == last_pos(s@, c),
            None => last_pos(s@, c) == -1,
        },
{
    let n: usize = s.unicode_len();
    proof {
        assert(s@.take(n as int) =~= s@);
    }
    let mut j: usize = n;
    while j > 0
        invariant
            n == s@.len(),
            j <= n,
            last_pos(s@, c) == last_pos(s@.take(j as int), c),
        decreases j,
    {
        if s.get_char(j - 1) == c {
            proof {
                assert(s@.take(j as int)[j - 1] == c);
            }
            return Some(j - 1);
        }
        proof {
            assert(s@.take(j as int).drop_last() =~= s@.take(j - 1 as int));
            assert(s@.take(j as int)[j - 1] != c);
        }
        j = j - 1;
    }
    proof {
        assert(s@.take(0) =~= Seq::<char>::empty());
    }
    None
}

/// The final path component of `s`: everything after the last `/`.
pub open spec fn file_component(s: Seq<char>) -> Seq<char> {
    s.subrange(last_pos(s, '/') + 1, s.len() as int)
}

/// The stem of the final path component: what stands before its last `.`,
/// unless that dot is the component's first character or absent, in which
/// case the whole component.
pub open spec fn stem_of(s: Seq<char>) -> Seq<char> {
    let comp = file_component(s);
    let d = last_pos(comp, '.');
    if d > 0 {
        comp.take(d)
    } else {
        comp
    }
}

/// The extension of the final path component: what stands after its last `.`,
/// provided that dot is neither the component's first character nor absent.
pub open spec fn extension_of(s: Seq<char>) -> Option<Seq<char>> {
    let comp = file_component(s);
    let d = last_pos(comp, '.');
    if d > 0 {
        Some(comp.subrange(d + 1, comp.len() as int))
    } else {
        None
    }
}

/// The normalized name of a flash algorithm taken from its file name:
/// the lower-cased stem of the final path component.
pub open spec fn algorithm_name(file_name: Seq<char>) -> Seq<char> {
    lower(stem_of(file_name))
}

/// The final path component of `name` as a fresh string.
fn component_str<'a>(name: &'a str) -> (r: &'a str)
    ensures
        r@ == file_component(name@),
{
    let n: usize = name.unicode_len();
    match rfind_char(name, '/') {
        Some(i) => {
            proof {
                lemma_last_pos(name@, '/');
            }
            name.substring_char(i + 1, n)
        },
        None => {
            proof {
                assert(name@.subrange(0, n as int) =~= name@);
            }
            name.substring_char(0, n)
        },
    }
}

/// Computes the normalized algorithm name for an algorithm file name.
pub fn algorithm_name_of(file_name: &str) -> (r: String)
    ensures
        r@ == algorithm_name(file_name@),
{
    let comp = component_str(file_name);
    match rfind_char(comp, '.') {
        Some(d) if d > 0 => {
            proof {
                lemma_last_pos(comp@, '.');
                assert(comp@.subrange(0, d as int) =~= comp@.take(d as int));
            }
            ascii_lower(comp.substring_char(0, d))
        },
        _ => ascii_lower(comp),
    }
}

/// Decides whether the extension of `name` is exactly `ext`.
pub fn extension_is(name: &str, ext: &str) -> (r: bool)
    ensures
        r == (extension_of(name@) == Some(ext@)),
{
    let comp = component_str(name);
    let cn: usize = comp.unicode_len();
    match rfind_char(comp, '.') {
        Some(d) if d > 0 => {
            proof {
                lemma_last_pos(comp@, '.');
            }
            let suffix = comp.substring_char(d + 1, cn);
            let sn: usize = suffix.unicode_len();
            let en: usize = ext.unicode_len();
            if sn != en {
                proof {
                    assert(suffix@ != ext@);
                }
                return false;
            }
            let mut i: usize = 0;
            while i < sn
                invariant
                    sn == suffix@.len(),
                    sn == ext@.len(),
                    i <= sn,
                    suffix@ == extension_of(name@)->Some_0,
                    extension_of(name@) is Some,
                    forall|j: int| 0 <= j < i ==> suffix@[j] == ext@[j],
                decreases sn - i,
            {
                if suffix.get_char(i) != ext.get_char(i) {
                    proof {
                        assert(suffix@ != ext@);
                    }
                    return false;
                }
                i = i + 1;
            }
            proof {
                assert(suffix@ =~= ext@);
            }
            true
        },
        _ => false,
    }
}

/// A `..` path component occurs somewhere in `s` (components split on `/`).
pub open spec fn has_parent_component(s: Seq<char>) -> bool {
    exists|i: int|
        0 <= i && i + 2 <= s.len() && #[trigger] s[i] == '.' && s[i + 1] == '.' && (i == 0 || s[i
            - 1] == '/') && (i + 2 == s.len() || s[i + 2] == '/')
}

/// A member name that is safe to resolve beneath a root: non-empty, relative,
/// free of backslashes, and without any parent-directory (`..`) component.
pub open spec fn safe_member_name(s: Seq<char>) -> bool {
    s.len() > 0 && s[0] != '/' && (forall|i: int| 0 <= i < s.len() ==> s[i] != '\\')
        && !has_parent_component(s)
}

/// Decides whether an archive member name is safe: it must be non-empty and
/// relative, use no backslashes, and contain no `..` component, so that
/// resolving it under a root cannot escape that root.
pub fn is_safe_member_name(name: &str) -> (r: bool)
    ensures
        r == safe_member_name(name@),
{
    let n: usize = name.unicode_len();
    if n == 0 {
        return false;
    }
    if name.get_char(0) == '/' {
        return false;
    }
    let mut i: usize = 0;
    while i < n
        invariant
            n == name@.len(),
            i <= n,
            forall|j: int| 0 <= j < i ==> name@[j] != '\\',
            forall|k: int|
                0 <= k && k + 2 <= n && k < i ==> !(#[trigger] name@[k] == '.' && name@[k + 1]
                    == '.' && (k == 0 || name@[k - 1] == '/') && (k + 2 == n || name@[k + 2]
                    == '/')),
        decreases n - i,
    {
        if name.get_char(i) == '\\' {
            return false;
        }
        if i + 1 < n && name.get_char(i) == '.' && name.get_char(i + 1) == '.' {
            let before_ok: bool = i == 0 || name.get_char(i - 1) == '/';
            let after_ok: bool = i + 2 == n || name.get_char(i + 2) == '/';
            if before_ok && after_ok {
                proof {
                    assert(has_parent_component(name@));
                }
                return false;
            }
        }
        i = i + 1;
    }
    true
}

} // verus!
