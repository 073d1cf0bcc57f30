//! Verified JSON text primitives for the wire codec: string escaping, the
//! scanner that undoes it, literal matching, and string-array parsing.
//!
//! All parsing positions are character indices into a `Seq<char>`; every
//! parser either fails or returns the parsed value together with the index
//! just past what it consumed.

use vstd::prelude::*;

verus! {

// ---------------------------------------------------------------------------
// String escaping
// ---------------------------------------------------------------------------

/// Characters the encoder writes as a two-character escape.
pub open spec fn needs_escape(c: char) -> bool {
    c == '"' || c == '\\' || c == '\n' || c == '\r' || c == '\t'
}

/// The character that follows the backslash when `c` is escaped.
pub open spec fn escape_code(c: char) -> char {
    if c == '"' {
        '"'
    } else if c == '\\' {
        '\\'
    } else if c == '\n' {
        'n'
    } else if c == '\r' {
        'r'
    } else {
        't'
    }
}

/// The character an escape code stands for, if it is a recognized code.
pub open spec fn unescape_code(e: char) -> Option<char> {
    if e == '"' {
        Some('"')
    } else if e == '\\' {
        Some('\\')
    } else if e == 'n' {
        Some('\n')
    } else if e == 'r' {
        Some('\r')
    } else if e == 't' {
        Some('\t')
    } else {
        None
    }
}

/// The escaped form of one character.
pub open spec fn esc_char(c: char) -> Seq<char> {
    if needs_escape(c) {
        seq!['\\', escape_code(c)]
    } else {
        seq![c]
    }
}

/// The escaped form of a whole string body.
pub open spec fn esc(s: Seq<char>) -> Seq<char>
    decreases s.len(),
{
    if s.len() == 0 {
        Seq::empty()
    } else {
        esc_char(s[0]) + esc(s.skip(1))
    }
}

/// A string body escaped and wrapped in quotes.
pub open spec fn quoted(s: Seq<char>) -> Seq<char> {
    seq!['"'] + esc(s) + seq!['"']
}

/// Escaping distributes over appending one character at the end.
pub proof fn lemma_esc_push(s: Seq<char>, c: char)
    ensures
        esc(s.push(c)) == esc(s) + esc_char(c),
    decreases s.len(),
{
    if s.len() == 0 {
        assert(s.push(c).skip(1) =~= Seq::<char>::empty());
        assert(esc(Seq::<char>::empty()) == Seq::<char>::empty());
        assert(esc(s.push(c)) =~= esc_char(c));
        assert(esc(s) + esc_char(c) =~= esc_char(c));
    } else {
        assert(s.push(c).skip(1) =~= s.skip(1).push(c));
        lemma_esc_push(s.skip(1), c);
        assert(esc(s.push(c)) =~= esc(s) + esc_char(c));
    }
}

// ---------------------------------------------------------------------------
// Scanning a quoted string body
// ---------------------------------------------------------------------------

/// Scans the body of a JSON string starting at `i` (just past the opening
/// quote): collects characters, undoing escapes, up to an unescaped closing
/// quote. Returns the body and the index just past the closing quote.
pub open spec fn scan_string(s: Seq<char>, i: int) -> Option<(Seq<char>, int)>
    decreases s.len() - i,
{
    if i < 0 || i >= s.len() {
        None
    } else if s[i] == '"' {
        Some((Seq::empty(), i + 1))
    } else if s[i] == '\\' {
        if i + 1 < s.len() {
            match unescape_code(s[i + 1]) {
                Some(c) => match scan_string(s, i + 2) {
                    Some(t_j) => Some((seq![c] + t_j.0, t_j.1)),
                    None => None,
                },
                None => None,
            }
        } else {
            None
        }
    } else {
        match scan_string(s, i + 1) {
            Some(t_j) => Some((seq![s[i]] + t_j.0, t_j.1)),
            None => None,
        }
    }
}

/// A successful scan always advances and stays inside the input.
pub proof fn lemma_scan_string_bounds(s: Seq<char>, i: int)
    ensures
        match scan_string(s, i) {
            Some(t_j) => i < t_j.1 <= s.len(),
            None => true,
        },
    decreases s.len() - i,
{
    if 0 <= i && i < s.len() {
        if s[i] == '"' {
        } else if s[i] == '\\' {
            if i + 1 < s.len() {
                lemma_scan_string_bounds(s, i + 2);
            }
        } else {
            lemma_scan_string_bounds(s, i + 1);
        }
    }
}

/// Scanning an escaped body followed by a closing quote recovers the body.
pub proof fn lemma_scan_esc(pre: Seq<char>, t: Seq<char>, rest: Seq<char>)
    ensures
        scan_string(pre + esc(t) + seq!['"'] + rest, pre.len() as int) == Some(
            (t, pre.len() as int + esc(t).len() as int + 1),
        ),
    decreases t.len(),
{
    let s = pre + esc(t) + seq!['"'] + rest;
    if t.len() == 0 {
        assert(s[pre.len() as int] == '"');
        assert(t =~= Seq::<char>::empty());
    } else {
        let c = t[0];
        let t2 = t.skip(1);
        assert(esc(t) == esc_char(c) + esc(t2));
        let pre2 = pre + esc_char(c);
        assert(s =~= pre2 + esc(t2) + seq!['"'] + rest);
        lemma_scan_esc(pre2, t2, rest);
        let p: int = pre.len() as int;
        if needs_escape(c) {
            assert(esc_char(c) == seq!['\\', escape_code(c)]);
            assert(s[p] == '\\');
            assert(s[p + 1] == escape_code(c));
            assert(unescape_code(escape_code(c)) == Some(c));
            assert(pre2.len() == p + 2);
            assert(scan_string(s, p + 2) == Some((t2, pre2.len() as int + esc(t2).len() as int + 1)));
            assert(seq![c] + t2 =~= t);
        } else {
            assert(esc_char(c) == seq![c]);
            assert(s[p] == c);
            assert(c != '"' && c != '\\');
            assert(pre2.len() == p + 1);
            assert(scan_string(s, p + 1) == Some((t2, pre2.len() as int + esc(t2).len() as int + 1)));
            assert(seq![c] + t2 =~= t);
        }
    }
}

// ---------------------------------------------------------------------------
// Literal matching
// ---------------------------------------------------------------------------

/// Matches the exact character sequence `lit` at position `i`; on success
/// the result is the index just past it.
pub open spec fn parse_lit(s: Seq<char>, i: int, lit: Seq<char>) -> Option<int> {
    if 0 <= i && i + lit.len() <= s.len() && s.subrange(i, i + lit.len()) == lit {
        Some(i + lit.len())
    } else {
        None
    }
}

/// A literal parses where the input is exactly built around it.
pub proof fn lemma_parse_lit_concat(pre: Seq<char>, lit: Seq<char>, rest: Seq<char>)
    ensures
        parse_lit(pre + lit + rest, pre.len() as int, lit) == Some((pre.len() + lit.len()) as int),
{
    let s = pre + lit + rest;
    assert(s.subrange(pre.len() as int, pre.len() + lit.len() as int) =~= lit);
}

/// A literal fails to parse where some character differs.
pub proof fn lemma_parse_lit_mismatch(s: Seq<char>, i: int, lit: Seq<char>, d: int)
    requires
        0 <= i,
        0 <= d < lit.len(),
        i + lit.len() <= s.len() ==> s[i + d] != lit[d],
    ensures
        parse_lit(s, i, lit) is None,
{
    if i + lit.len() <= s.len() && s.subrange(i, i + lit.len()) == lit {
        assert(s.subrange(i, i + lit.len())[d] == s[i + d]);
    }
}

// ---------------------------------------------------------------------------
// Arrays of strings
// ---------------------------------------------------------------------------

/// Parses one or more quoted strings separated by commas, ending at a
/// closing bracket; `i` points at the opening quote of the first element.
/// Returns the elements and the index just past the bracket.
pub open spec fn parse_items(s: Seq<char>, i: int) -> Option<(Seq<Seq<char>>, int)>
    decreases s.len() - i,
    via parse_items_decreases
{
    if i < 0 || i >= s.len() {
        None
    } else if s[i] == '"' {
        match scan_string(s, i + 1) {
            Some(t_j) => {
                let t = t_j.0;
                let j = t_j.1;
                if j < s.len() && s[j] == ',' {
                    match parse_items(s, j + 1) {
                        Some(ts_k) => Some((seq![t] + ts_k.0, ts_k.1)),
                        None => None,
                    }
                } else if j < s.len() && s[j] == ']' {
                    Some((seq![t], j + 1))
                } else {
                    None
                }
            },
            None => None,
        }
    } else {
        None
    }
}

#[via_fn]
proof fn parse_items_decreases(s: Seq<char>, i: int) {
    lemma_scan_string_bounds(s, i + 1);
}

/// The text of the elements of a non-empty string array: quoted strings
/// joined by commas.
pub open spec fn arr_items_text(l: Seq<Seq<char>>) -> Seq<char>
    decreases l.len(),
{
    if l.len() == 0 {
        Seq::empty()
    } else if l.len() == 1 {
        quoted(l[0])
    } else {
        quoted(l[0]) + seq![','] + arr_items_text(l.skip(1))
    }
}

/// The full text of a string array, brackets included.
pub open spec fn arr_text(l: Seq<Seq<char>>) -> Seq<char> {
    seq!['['] + arr_items_text(l) + seq![']']
}

/// Array-items text distributes over appending one element at the end.
pub proof fn lemma_arr_items_text_push(l: Seq<Seq<char>>, x: Seq<char>)
    ensures
        arr_items_text(l.push(x)) == if l.len() == 0 {
            quoted(x)
        } else {
            arr_items_text(l) + seq![','] + quoted(x)
        },
    decreases l.len(),
{
    if l.len() == 0 {
        assert(l.push(x) =~= seq![x]);
        assert(arr_items_text(seq![x]) == quoted(x));
    } else if l.len() == 1 {
        assert(l.push(x).skip(1) =~= seq![x]);
        assert(l.push(x)[0] == l[0]);
        assert(arr_items_text(seq![x]) == quoted(x));
        assert(arr_items_text(l.push(x)) == quoted(l[0]) + seq![','] + quoted(x));
        assert(arr_items_text(l) == quoted(l[0]));
    } else {
        assert(l.push(x).skip(1) =~= l.skip(1).push(x));
        lemma_arr_items_text_push(l.skip(1), x);
        assert(l.push(x)[0] == l[0]);
        assert(arr_items_text(l.push(x)) == quoted(l[0]) + seq![','] + arr_items_text(
            l.skip(1).push(x),
        ));
        assert(quoted(l[0]) + seq![','] + (arr_items_text(l.skip(1)) + seq![','] + quoted(x)) =~= (
        quoted(l[0]) + seq![','] + arr_items_text(l.skip(1))) + seq![','] + quoted(x));
    }
}

/// Parsing the items text of a non-empty array recovers the elements.
pub proof fn lemma_parse_items_of_text(pre: Seq<char>, l: Seq<Seq<char>>, rest: Seq<char>)
    requires
        l.len() > 0,
    ensures
        parse_items(pre + arr_items_text(l) + seq![']'] + rest, pre.len() as int) == Some(
            (l, pre.len() as int + arr_items_text(l).len() as int + 1),
        ),
    decreases l.len(),
{
    let s = pre + arr_items_text(l) + seq![']'] + rest;
    let x = l[0];
    if l.len() == 1 {
        assert(arr_items_text(l) == quoted(x));
        let pre2 = pre + seq!['"'];
        assert(s =~= pre2 + esc(x) + seq!['"'] + (seq![']'] + rest));
        lemma_scan_esc(pre2, x, seq![']'] + rest);
        let j: int = pre2.len() as int + esc(x).len() as int + 1;
        assert(s[pre.len() as int] == '"');
        assert(scan_string(s, pre.len() as int + 1) == Some((x, j)));
        assert(s[j] == ']');
        assert(j + 1 == pre.len() + arr_items_text(l).len() + 1);
        assert(seq![x] =~= l);
    } else {
        assert(arr_items_text(l) == quoted(x) + seq![','] + arr_items_text(l.skip(1)));
        let pre2 = pre + seq!['"'];
        let mid = seq![','] + arr_items_text(l.skip(1)) + seq![']'] + rest;
        assert(s =~= pre2 + esc(x) + seq!['"'] + mid);
        lemma_scan_esc(pre2, x, mid);
        let j: int = pre2.len() as int + esc(x).len() as int + 1;
        assert(s[pre.len() as int] == '"');
        assert(scan_string(s, pre.len() as int + 1) == Some((x, j)));
        assert(s[j] == ',');
        let pre3 = pre + quoted(x) + seq![','];
        assert(pre3.len() == j + 1);
        assert(s =~= pre3 + arr_items_text(l.skip(1)) + seq![']'] + rest);
        lemma_parse_items_of_text(pre3, l.skip(1), rest);
        assert(parse_items(s, j + 1) == Some(
            (l.skip(1), pre3.len() as int + arr_items_text(l.skip(1)).len() as int + 1),
        ));
        assert(seq![x] + l.skip(1) =~= l);
        assert(pre3.len() + arr_items_text(l.skip(1)).len() + 1 == pre.len() + arr_items_text(
            l,
        ).len() + 1);
    }
}

// ---------------------------------------------------------------------------
// Executable primitives
// ---------------------------------------------------------------------------

/// Relies on `String::push`: appends exactly one character at the end.
#[verifier::external_body]
pub fn push_char(out: &mut String, c: char)
    ensures
        final(out).view() == old(out).view().push(c),
{
    out.push(c);
}

/// Character-wise string equality.
pub fn str_eq(a: &str, b: &str) -> (r: bool)
    ensures
        r == (a.view() == b.view()),
{
    let na = a.unicode_len();
    let nb = b.unicode_len();
    if na != nb {
        return false;
    }
    let mut k: usize = 0;
    while k < na
        invariant
            na == a.view().len(),
            na == b.view().len(),
            k <= na,
            forall|x: int| 0 <= x < k ==> a.view()[x] == b.view()[x],
        decreases na - k,
    {
        if a.get_char(k) != b.get_char(k) {
            return false;
        }
        k += 1;
    }
    proof {
        assert(a.view() =~= b.view());
    }
    true
}

/// Appends the escaped form of `s` to `out`.
pub fn append_escaped(out: &mut String, s: &str)
    ensures
        final(out).view() == old(out).view() + esc(s.view()),
{
    let n = s.unicode_len();
    let mut k: usize = 0;
    while k < n
        invariant
            n == s.view().len(),
            k <= n,
            out.view() == old(out).view() + esc(s.view().take(k as int)),
        decreases n - k,
    {
        let c = s.get_char(k);
        proof {
            lemma_esc_push(s.view().take(k as int), c);
            assert(s.view().take(k as int).push(c) =~= s.view().take(k as int + 1));
        }
        if c == '"' {
            push_char(out, '\\');
            push_char(out, '"');
        } else if c == '\\' {
            push_char(out, '\\');
            push_char(out, '\\');
        } else if c == '\n' {
            push_char(out, '\\');
            push_char(out, 'n');
        } else if c == '\r' {
            push_char(out, '\\');
            push_char(out, 'r');
        } else if c == '\t' {
            push_char(out, '\\');
            push_char(out, 't');
        } else {
            push_char(out, c);
        }
        proof {
            assert(out.view() =~= old(out).view() + esc(s.view().take(k as int + 1)));
        }
        k += 1;
    }
    proof {
        assert(s.view().take(n as int) =~= s.view());
    }
}

/// Appends the quoted, escaped form of `s` to `out`.
pub fn append_quoted(out: &mut String, s: &str)
    ensures
        final(out).view() == old(out).view() + quoted(s.view()),
{
    push_char(out, '"');
    append_escaped(out, s);
    push_char(out, '"');
    proof {
        assert(old(out).view().push('"') + esc(s.view()) =~= old(out).view() + (seq!['"'] + esc(
            s.view(),
        )));
        assert((old(out).view() + (seq!['"'] + esc(s.view()))).push('"') =~= old(out).view()
            + quoted(s.view()));
    }
}

/// Matches the literal `lit` at position `i` of `s`, whose length is `n`.
pub fn match_lit(s: &str, n: usize, i: usize, lit: &str) -> (r: Option<usize>)
    requires
        n == s.view().len(),
        i <= n,
    ensures
        match r {
            Some(j) => parse_lit(s.view(), i as int, lit.view()) == Some(j as int) && i <= j <= n,
            None => parse_lit(s.view(), i as int, lit.view()) is None,
        },
{
    let m = lit.unicode_len();
    if n - i < m {
        return None;
    }
    let mut k: usize = 0;
    while k < m
        invariant
            n == s.view().len(),
            m == lit.view().len(),
            i + m <= n,
            k <= m,
            forall|x: int| 0 <= x < k ==> s.view()[i + x] == lit.view()[x],
        decreases m - k,
    {
        if s.get_char(i + k) != lit.get_char(k) {
            proof {
                lemma_parse_lit_mismatch(s.view(), i as int, lit.view(), k as int);
            }
            return None;
        }
        k += 1;
    }
    proof {
        assert(s.view().subrange(i as int, i as int + m as int) =~= lit.view());
    }
    Some(i + m)
}

/// What a scan from a later position contributes to a scan from an earlier
/// one: the characters already collected are put in front.
pub open spec fn scan_prepend(p: Seq<char>, o: Option<(Seq<char>, int)>) -> Option<
    (Seq<char>, int),
> {
    match o {
        Some(t_j) => Some((p + t_j.0, t_j.1)),
        None => None,
    }
}

/// Scans a quoted string body starting at `i` (just past the opening quote).
pub fn scan_str(s: &str, n: usize, i: usize) -> (r: Option<(String, usize)>)
    requires
        n == s.view().len(),
        i <= n,
    ensures
        match r {
            Some(t_j) => scan_string(s.view(), i as int) == Some((t_j.0.view(), t_j.1 as int)) && i
                < t_j.1 <= n,
            None => scan_string(s.view(), i as int) is None,
        },
{
    let mut acc = String::new();
    let mut j = i;
    while j < n
        invariant
            n == s.view().len(),
            i <= j <= n,
            scan_string(s.view(), i as int) == scan_prepend(
                acc.view(),
                scan_string(s.view(), j as int),
            ),
        decreases n - j,
    {
        let c = s.get_char(j);
        if c == '"' {
            proof {
                assert(acc.view() + Seq::<char>::empty() =~= acc.view());
            }
            return Some((acc, j + 1));
        } else if c == '\\' {
            if j + 1 < n {
                let e = s.get_char(j + 1);
                match unescape_char(e) {
                    Some(u) => {
                        proof {
                            match scan_string(s.view(), j as int + 2) {
                                Some(t_k) => {
                                    assert(acc.view() + (seq![u] + t_k.0) =~= acc.view().push(u)
                                        + t_k.0);
                                },
                                None => {},
                            }
                        }
                        push_char(&mut acc, u);
                        j += 2;
                    },
                    None => {
                        return None;
                    },
                }
            } else {
                return None;
            }
        } else {
            proof {
                match scan_string(s.view(), j as int + 1) {
                    Some(t_k) => {
                        assert(acc.view() + (seq![c] + t_k.0) =~= acc.view().push(c) + t_k.0);
                    },
                    None => {},
                }
            }
            push_char(&mut acc, c);
            j += 1;
        }
    }
    None
}

/// The executable form of [`unescape_code`].
pub fn unescape_char(e: char) -> (r: Option<char>)
    ensures
        r == unescape_code(e),
{
    if e == '"' {
        Some('"')
    } else if e == '\\' {
        Some('\\')
    } else if e == 'n' {
        Some('\n')
    } else if e == 'r' {
        Some('\r')
    } else if e == 't' {
        Some('\t')
    } else {
        None
    }
}

/// What an items parse from a later position contributes to one from an
/// earlier position: the elements already collected are put in front.
pub open spec fn items_prepend(p: Seq<Seq<char>>, o: Option<(Seq<Seq<char>>, int)>) -> Option<
    (Seq<Seq<char>>, int),
> {
    match o {
        Some(ts_k) => Some((p + ts_k.0, ts_k.1)),
        None => None,
    }
}

/// Parses the elements of a non-empty string array; `i` points at the
/// opening quote of the first element.
pub fn parse_items_str(s: &str, n: usize, i: usize) -> (r: Option<(Vec<String>, usize)>)
    requires
        n == s.view().len(),
        i <= n,
    ensures
        match r {
            Some(v_j) => parse_items(s.view(), i as int) == Some(
                (v_j.0.deep_view(), v_j.1 as int),
            ) && i < v_j.1 <= n,
            None => parse_items(s.view(), i as int) is None,
        },
{
    let mut acc: Vec<String> = Vec::new();
    let mut j = i;
    loop
        invariant
            n == s.view().len(),
            i <= j <= n,
            parse_items(s.view(), i as int) == items_prepend(
                acc.deep_view(),
                parse_items(s.view(), j as int),
            ),
        decreases n - j,
    {
        if j >= n {
            return None;
        }
        if s.get_char(j) != '"' {
            return None;
        }
        match scan_str(s, n, j + 1) {
            None => {
                return None;
            },
            Some((t, k)) => {
                if k < n && s.get_char(k) == ',' {
                    proof {
                        match parse_items(s.view(), k as int + 1) {
                            Some(ts_m) => {
                                assert(acc.deep_view() + (seq![t.view()] + ts_m.0)
                                    =~= acc.deep_view().push(t.view()) + ts_m.0);
                            },
                            None => {},
                        }
                    }
                    let ghost acc_old = acc.deep_view();
                    acc.push(t);
                    proof {
                        assert(acc.deep_view() =~= acc_old.push(t.view()));
                    }
                    j = k + 1;
                } else if k < n && s.get_char(k) == ']' {
                    let ghost acc_old = acc.deep_view();
                    acc.push(t);
                    proof {
                        assert(acc.deep_view() =~= acc_old.push(t.view()));
                        assert(acc_old + seq![t.view()] =~= acc_old.push(t.view()));
                    }
                    return Some((acc, k + 1));
                } else {
                    return None;
                }
            },
        }
    }
}

} // verus!
