//! Verified character and string utilities used by the wire codec: finding
//! characters, splitting on separators, trimming whitespace, joining lines,
//! and rendering decimal numbers.  All specifications are stated over
//! `Seq<char>` views.

use vstd::prelude::*;

verus! {

/// The Unicode `White_Space` set, as used by `str::trim` and
/// `str::split_whitespace`.
pub open spec fn is_ws(c: char) -> bool {
    ||| c == ' '
    ||| c == '\t'
    ||| c == '\n'
    ||| c == '\r'
    ||| c as u32 == 0x0B
    ||| c as u32 == 0x0C
    ||| c as u32 == 0x85
    ||| c as u32 == 0xA0
    ||| c as u32 == 0x1680
    ||| (0x2000 <= c as u32 && c as u32 <= 0x200A)
    ||| c as u32 == 0x2028
    ||| c as u32 == 0x2029
    ||| c as u32 == 0x202F
    ||| c as u32 == 0x205F
    ||| c as u32 == 0x3000
}

/// Decides whether `c` is a whitespace character.
pub fn is_ws_char(c: char) -> (r: bool)
    ensures
        r == is_ws(c),
{
    let u = c as u32;
    u == 0x20 || u == 0x09 || u == 0x0A || u == 0x0D || u == 0x0B || u == 0x0C || u == 0x85
        || u == 0xA0 || u == 0x1680 || (0x2000 <= u && u <= 0x200A) || u == 0x2028 || u == 0x2029
        || u == 0x202F || u == 0x205F || u == 0x3000
}

/// Index of the first occurrence of `c` in `s` at or after position `i`,
/// if any.
pub open spec fn find_char_from(s: Seq<char>, c: char, i: int) -> Option<int>
    decreases s.len() - i,
    when 0 <= i
{
    if i >= s.len() {
        None
    } else if s[i] == c {
        Some(i)
    } else {
        find_char_from(s, c, i + 1)
    }
}

/// What `find_char_from` returns: a position in range holding `c`, with no
/// earlier occurrence, or `None` when `c` does not occur at or after `i`.
pub proof fn lemma_find_char_from(s: Seq<char>, c: char, i: int)
    requires
        0 <= i,
    ensures
        match find_char_from(s, c, i) {
            Some(j) => i <= j < s.len() && s[j] == c && forall|k: int|
                i <= k < j ==> s[k] != c,
            None => forall|k: int| i <= k < s.len() ==> s[k] != c,
        },
    decreases s.len() - i,
{
    if i < s.len() && s[i] != c {
        lemma_find_char_from(s, c, i + 1);
    }
}

/// Finds the first occurrence of `c` in `s` at or after character position
/// `from`.
pub fn find_char(s: &str, c: char, from: usize) -> (r: Option<usize>)
    requires
        from <= s@.len(),
    ensures
        match r {
            Some(j) => Some(j as int) == find_char_from(s@, c, from as int),
            None => find_char_from(s@, c, from as int) is None,
        },
{
    let n = s.unicode_len();
    let mut i = from;
    while i < n
        invariant
            from <= i <= n,
            n == s@.len(),
            find_char_from(s@, c, from as int) == find_char_from(s@, c, i as int),
        decreases n - i,
    {
        if s.get_char(i) == c {
            return Some(i);
        }
        i = i + 1;
    }
    None
}

/// The pieces of `s` from position `i` on, split on `c`; the separator is
/// dropped, and an absent separator yields the single remaining piece.
pub open spec fn split_char_from(s: Seq<char>, c: char, i: int) -> Seq<Seq<char>>
    decreases s.len() - i,
    when 0 <= i <= s.len()
{
    match find_char_from(s, c, i) {
        None => seq![s.subrange(i, s.len() as int)],
        Some(j) => if i <= j < s.len() {
            seq![s.subrange(i, j)] + split_char_from(s, c, j + 1)
        } else {
            seq![s.subrange(i, s.len() as int)]
        },
    }
}

/// Splits `s` on every occurrence of `c`.
pub fn split_char<'a>(s: &'a str, c: char) -> (r: Vec<&'a str>)
    ensures
        r.deep_view() == split_char_from(s@, c, 0),
{
    let n = s.unicode_len();
    let mut acc: Vec<&'a str> = Vec::new();
    let mut p: usize = 0;
    loop
        invariant
            p <= n,
            n == s@.len(),
            split_char_from(s@, c, 0) == acc.deep_view() + split_char_from(s@, c, p as int),
        decreases n - p,
    {
        proof {
            lemma_find_char_from(s@, c, p as int);
        }
        match find_char(s, c, p) {
            None => {
                let piece = s.substring_char(p, n);
                acc.push(piece);
                proof {
                    assert(acc.deep_view() =~= acc.deep_view().subrange(
                        0,
                        acc.deep_view().len() - 1,
                    ) + seq![piece@]);
                    assert(split_char_from(s@, c, 0) =~= acc.deep_view());
                }
                return acc;
            },
            Some(j) => {
                let piece = s.substring_char(p, j);
                acc.push(piece);
                p = j + 1;
                proof {
                    assert(split_char_from(s@, c, 0) =~= acc.deep_view() + split_char_from(
                        s@,
                        c,
                        p as int,
                    ));
                }
            },
        }
    }
}

/// Index of the first CRLF pair in `s` at or after position `i`, if any.
pub open spec fn find_crlf_from(s: Seq<char>, i: int) -> Option<int>
    decreases s.len() - i,
    when 0 <= i
{
    if i + 1 >= s.len() {
        None
    } else if s[i] == '\r' && s[i + 1] == '\n' {
        Some(i)
    } else {
        find_crlf_from(s, i + 1)
    }
}

/// What `find_crlf_from` returns: the position of the first CRLF pair at or
/// after `i`, or `None` when none occurs.
pub proof fn lemma_find_crlf_from(s: Seq<char>, i: int)
    requires
        0 <= i,
    ensures
        match find_crlf_from(s, i) {
            Some(j) => i <= j && j + 1 < s.len() && s[j] == '\r' && s[j + 1] == '\n',
            None => true,
        },
    decreases s.len() - i,
{
    if i + 1 < s.len() && !(s[i] == '\r' && s[i + 1] == '\n') {
        lemma_find_crlf_from(s, i + 1);
    }
}

/// Finds the first CRLF pair in `s` at or after character position `from`.
pub fn find_crlf(s: &str, from: usize) -> (r: Option<usize>)
    requires
        from <= s@.len(),
    ensures
        match r {
            Some(j) => Some(j as int) == find_crlf_from(s@, from as int),
            None => find_crlf_from(s@, from as int) is None,
        },
{
    let n = s.unicode_len();
    let mut i = from;
    while i < n && i + 1 < n
        invariant
            from <= i <= n,
            n == s@.len(),
            find_crlf_from(s@, from as int) == find_crlf_from(s@, i as int),
        decreases n - i,
    {
        if s.get_char(i) == '\r' && s.get_char(i + 1) == '\n' {
            return Some(i);
        }
        i = i + 1;
    }
    None
}

/// The pieces of `s` from position `i` on, split on CRLF pairs; the
/// separators are dropped.
pub open spec fn split_crlf_from(s: Seq<char>, i: int) -> Seq<Seq<char>>
    decreases s.len() - i,
    when 0 <= i <= s.len()
{
    match find_crlf_from(s, i) {
        None => seq![s.subrange(i, s.len() as int)],
        Some(j) => if i <= j && j + 2 <= s.len() {
            seq![s.subrange(i, j)] + split_crlf_from(s, j + 2)
        } else {
            seq![s.subrange(i, s.len() as int)]
        },
    }
}

/// Splits `s` on every CRLF pair.
pub fn split_crlf<'a>(s: &'a str) -> (r: Vec<&'a str>)
    ensures
        r.deep_view() == split_crlf_from(s@, 0),
{
    let n = s.unicode_len();
    let mut acc: Vec<&'a str> = Vec::new();
    let mut p: usize = 0;
    loop
        invariant
            p <= n,
            n == s@.len(),
            split_crlf_from(s@, 0) == acc.deep_view() + split_crlf_from(s@, p as int),
        decreases n - p,
    {
        proof {
            lemma_find_crlf_from(s@, p as int);
        }
        match find_crlf(s, p) {
            None => {
                let piece = s.substring_char(p, n);
                acc.push(piece);
                proof {
                    assert(acc.deep_view() =~= acc.deep_view().subrange(
                        0,
                        acc.deep_view().len() - 1,
                    ) + seq![piece@]);
                    assert(split_crlf_from(s@, 0) =~= acc.deep_view());
                }
                return acc;
            },
            Some(j) => {
                let piece = s.substring_char(p, j);
                acc.push(piece);
                p = j + 2;
                proof {
                    assert(split_crlf_from(s@, 0) =~= acc.deep_view() + split_crlf_from(
                        s@,
                        p as int,
                    ));
                }
            },
        }
    }
}

/// Index of the first whitespace character at or after `i`, or the length
/// of `s` when the rest of `s` is whitespace-free.
pub open spec fn token_end_from(s: Seq<char>, i: int) -> int
    decreases s.len() - i,
    when 0 <= i
{
    if i >= s.len() {
        s.len() as int
    } else if is_ws(s[i]) {
        i
    } else {
        token_end_from(s, i + 1)
    }
}

/// Bounds for `token_end_from`: the result lies between `i` and the length,
/// no character before it (from `i` on) is whitespace, and the character at
/// it (if any) is.
pub proof fn lemma_token_end_from(s: Seq<char>, i: int)
    requires
        0 <= i <= s.len(),
    ensures
        i <= token_end_from(s, i) <= s.len(),
        forall|k: int| i <= k < token_end_from(s, i) ==> !is_ws(s[k]),
        token_end_from(s, i) < s.len() ==> is_ws(s[token_end_from(s, i)]),
    decreases s.len() - i,
{
    if i < s.len() && !is_ws(s[i]) {
        lemma_token_end_from(s, i + 1);
    }
}

/// Finds the end of the whitespace-free run starting at `from`.
pub fn token_end(s: &str, from: usize) -> (r: usize)
    requires
        from <= s@.len(),
    ensures
        r as int == token_end_from(s@, from as int),
        from <= r <= s@.len(),
{
    proof {
        lemma_token_end_from(s@, from as int);
    }
    let n = s.unicode_len();
    let mut i = from;
    while i < n && !is_ws_char(s.get_char(i))
        invariant
            from <= i <= n,
            n == s@.len(),
            token_end_from(s@, from as int) == token_end_from(s@, i as int),
        decreases n - i,
    {
        i = i + 1;
    }
    i
}

/// Index of the first non-whitespace character at or after `i`, or the
/// length of `s` when the rest of `s` is whitespace.
pub open spec fn skip_ws_from(s: Seq<char>, i: int) -> int
    decreases s.len() - i,
    when 0 <= i
{
    if i >= s.len() {
        s.len() as int
    } else if is_ws(s[i]) {
        skip_ws_from(s, i + 1)
    } else {
        i
    }
}

/// Bounds for `skip_ws_from`.
pub proof fn lemma_skip_ws_from(s: Seq<char>, i: int)
    requires
        0 <= i <= s.len(),
    ensures
        i <= skip_ws_from(s, i) <= s.len(),
        skip_ws_from(s, i) < s.len() ==> !is_ws(s[skip_ws_from(s, i)]),
    decreases s.len() - i,
{
    if i < s.len() && is_ws(s[i]) {
        lemma_skip_ws_from(s, i + 1);
    }
}

/// The whitespace-separated tokens of `s` from position `i` on, in order;
/// runs of whitespace separate tokens and are dropped, so no token is empty.
pub open spec fn split_ws_from(s: Seq<char>, i: int) -> Seq<Seq<char>>
    decreases s.len() - i,
    when 0 <= i <= s.len()
{
    if i >= s.len() {
        seq![]
    } else if is_ws(s[i]) {
        split_ws_from(s, i + 1)
    } else {
        let k = token_end_from(s, i);
        if i < k <= s.len() {
            seq![s.subrange(i, k)] + split_ws_from(s, k)
        } else {
            seq![s.subrange(i, s.len() as int)]
        }
    }
}

/// Splits `s` into its whitespace-separated tokens.
pub fn split_ws<'a>(s: &'a str) -> (r: Vec<&'a str>)
    ensures
        r.deep_view() == split_ws_from(s@, 0),
{
    let n = s.unicode_len();
    let mut acc: Vec<&'a str> = Vec::new();
    let mut p: usize = 0;
    while p < n
        invariant
            p <= n,
            n == s@.len(),
            split_ws_from(s@, 0) == acc.deep_view() + split_ws_from(s@, p as int),
        decreases n - p,
    {
        if is_ws_char(s.get_char(p)) {
            p = p + 1;
        } else {
            proof {
                lemma_token_end_from(s@, p as int);
            }
            let k = token_end(s, p);
            let piece = s.substring_char(p, k);
            acc.push(piece);
            proof {
                assert(split_ws_from(s@, 0) =~= acc.deep_view() + split_ws_from(s@, k as int));
            }
            p = k;
        }
    }
    proof {
        assert(split_ws_from(s@, 0) =~= acc.deep_view());
    }
    acc
}

/// Index just past the last non-whitespace character strictly before `i`,
/// or `0` when everything before `i` is whitespace.
pub open spec fn rskip_ws_from(s: Seq<char>, i: int) -> int
    decreases i,
    when i <= s.len()
{
    if i <= 0 {
        0
    } else if is_ws(s[i - 1]) {
        rskip_ws_from(s, i - 1)
    } else {
        i
    }
}

/// Bounds for `rskip_ws_from`.
pub proof fn lemma_rskip_ws_from(s: Seq<char>, i: int)
    requires
        0 <= i <= s.len(),
    ensures
        0 <= rskip_ws_from(s, i) <= i,
        rskip_ws_from(s, i) > 0 ==> !is_ws(s[rskip_ws_from(s, i) - 1]),
    decreases i,
{
    if i > 0 && is_ws(s[i - 1]) {
        lemma_rskip_ws_from(s, i - 1);
    }
}

/// `s` with leading and trailing whitespace removed.
pub open spec fn spec_trim(s: Seq<char>) -> Seq<char> {
    let a = skip_ws_from(s, 0);
    let b = rskip_ws_from(s, s.len() as int);
    if a <= b {
        s.subrange(a, b)
    } else {
        seq![]
    }
}

/// Removes leading and trailing whitespace from `s`.
pub fn trim<'a>(s: &'a str) -> (r: &'a str)
    ensures
        r@ == spec_trim(s@),
{
    let n = s.unicode_len();
    proof {
        lemma_skip_ws_from(s@, 0);
        lemma_rskip_ws_from(s@, n as int);
    }
    let mut a: usize = 0;
    while a < n && is_ws_char(s.get_char(a))
        invariant
            a <= n,
            n == s@.len(),
            skip_ws_from(s@, 0) == skip_ws_from(s@, a as int),
        decreases n - a,
    {
        a = a + 1;
    }
    let mut b: usize = n;
    while b > 0 && is_ws_char(s.get_char(b - 1))
        invariant
            b <= n,
            n == s@.len(),
            rskip_ws_from(s@, n as int) == rskip_ws_from(s@, b as int),
        decreases b,
    {
        b = b - 1;
    }
    if a <= b {
        s.substring_char(a, b)
    } else {
        let empty = "";
        proof {
            reveal_strlit("");
            assert(empty@ =~= spec_trim(s@));
        }
        empty
    }
}

/// Decides whether two strings hold the same characters.
pub fn str_eq(a: &str, b: &str) -> (r: bool)
    ensures
        r == (a@ == b@),
{
    let na = a.unicode_len();
    let nb = b.unicode_len();
    if na != nb {
        return false;
    }
    let mut i: usize = 0;
    while i < na
        invariant
            i <= na,
            na == a@.len(),
            na == b@.len(),
            forall|k: int| 0 <= k < i ==> a@[k] == b@[k],
        decreases na - i,
    {
        if a.get_char(i) != b.get_char(i) {
            return false;
        }
        i = i + 1;
    }
    proof {
        assert(a@ =~= b@);
    }
    true
}

/// No character of `s` is whitespace.
pub open spec fn ws_free(s: Seq<char>) -> bool {
    forall|i: int| 0 <= i < s.len() ==> !is_ws(s[i])
}

/// The character `c` does not occur in `s`.
pub open spec fn char_free(s: Seq<char>, c: char) -> bool {
    forall|i: int| 0 <= i < s.len() ==> s[i] != c
}

/// Whitespace-freedom is preserved by concatenation.
pub proof fn lemma_ws_free_concat(x: Seq<char>, y: Seq<char>)
    requires
        ws_free(x),
        ws_free(y),
    ensures
        ws_free(x + y),
{
    assert forall|i: int| 0 <= i < (x + y).len() implies !is_ws((x + y)[i]) by {
        if i < x.len() {
            assert((x + y)[i] == x[i]);
        } else {
            assert((x + y)[i] == y[i - x.len()]);
        }
    }
}

/// A position holding `c` with no occurrence between `a` and it is what
/// `find_char_from` returns.
pub proof fn lemma_find_char_first(s: Seq<char>, c: char, a: int, j: int)
    requires
        0 <= a <= j < s.len(),
        s[j] == c,
        forall|l: int| a <= l < j ==> s[l] != c,
    ensures
        find_char_from(s, c, a) == Some(j),
    decreases j - a,
{
    if a < j {
        lemma_find_char_first(s, c, a + 1, j);
    }
}

/// When `c` does not occur at or after `a`, `find_char_from` returns
/// nothing.
pub proof fn lemma_find_char_none(s: Seq<char>, c: char, a: int)
    requires
        0 <= a,
        forall|l: int| a <= l < s.len() ==> s[l] != c,
    ensures
        find_char_from(s, c, a) is None,
    decreases s.len() - a,
{
    if a < s.len() {
        lemma_find_char_none(s, c, a + 1);
    }
}

/// A whitespace-free run from `i` that ends at `j` (the end of `s`, or a
/// whitespace character) is exactly the token `token_end_from` delimits.
pub proof fn lemma_token_end_run(s: Seq<char>, i: int, j: int)
    requires
        0 <= i <= j <= s.len(),
        forall|l: int| i <= l < j ==> !is_ws(s[l]),
        j == s.len() || is_ws(s[j]),
    ensures
        token_end_from(s, i) == j,
    decreases j - i,
{
    if i < j {
        lemma_token_end_run(s, i + 1, j);
    }
}

/// Splitting a line of exactly three whitespace-free tokens separated by
/// single spaces yields exactly those tokens.
pub proof fn lemma_split_ws_three(a: Seq<char>, b: Seq<char>, c: Seq<char>)
    requires
        a.len() > 0,
        b.len() > 0,
        c.len() > 0,
        ws_free(a),
        ws_free(b),
        ws_free(c),
    ensures
        split_ws_from(a + " "@ + b + " "@ + c, 0) == seq![a, b, c],
{
    reveal_strlit(" ");
    let s = a + " "@ + b + " "@ + c;
    let la = a.len() as int;
    let lb = b.len() as int;
    let n = s.len() as int;
    assert(" "@ =~= seq![' ']);
    assert(n == la + 1 + lb + 1 + c.len());
    assert(s.subrange(0, la) =~= a);
    assert(s[la] == ' ');
    assert(s.subrange(la + 1, la + 1 + lb) =~= b);
    assert(s[la + 1 + lb] == ' ');
    assert(s.subrange(la + 2 + lb, n) =~= c);
    assert forall|l: int| 0 <= l < la implies !is_ws(s[l]) by {
        assert(s[l] == s.subrange(0, la)[l]);
    }
    assert forall|l: int| la + 1 <= l < la + 1 + lb implies !is_ws(s[l]) by {
        assert(s[l] == s.subrange(la + 1, la + 1 + lb)[l - (la + 1)]);
    }
    assert forall|l: int| la + 2 + lb <= l < n implies !is_ws(s[l]) by {
        assert(s[l] == s.subrange(la + 2 + lb, n)[l - (la + 2 + lb)]);
    }
    assert(is_ws(' '));
    lemma_token_end_run(s, 0, la);
    assert(!is_ws(s[0]));
    assert(split_ws_from(s, 0) == seq![s.subrange(0, la)] + split_ws_from(s, la));
    assert(split_ws_from(s, la) == split_ws_from(s, la + 1));
    lemma_token_end_run(s, la + 1, la + 1 + lb);
    assert(!is_ws(s[la + 1]));
    assert(split_ws_from(s, la + 1) == seq![s.subrange(la + 1, la + 1 + lb)] + split_ws_from(
        s,
        la + 1 + lb,
    ));
    assert(split_ws_from(s, la + 1 + lb) == split_ws_from(s, la + 2 + lb));
    lemma_token_end_run(s, la + 2 + lb, n);
    assert(!is_ws(s[la + 2 + lb]));
    assert(split_ws_from(s, la + 2 + lb) == seq![s.subrange(la + 2 + lb, n)] + split_ws_from(s, n));
    assert(split_ws_from(s, n) =~= Seq::<Seq<char>>::empty());
    assert(split_ws_from(s, 0) =~= seq![a, b, c]);
}

/// The lines `lines[i..]` joined with a single newline separator.
pub open spec fn join_nl_from(lines: Seq<Seq<char>>, i: int) -> Seq<char>
    decreases lines.len() - i,
    when 0 <= i
{
    if i >= lines.len() {
        seq![]
    } else if i == lines.len() - 1 {
        lines[i]
    } else {
        lines[i] + seq!['\n'] + join_nl_from(lines, i + 1)
    }
}

/// Joins `lines[from..]` with a newline separator between consecutive lines.
pub fn join_newline(lines: &[&str], from: usize) -> (r: String)
    requires
        from <= lines@.len(),
    ensures
        r@ == join_nl_from(lines.deep_view(), from as int),
{
    let n = lines.len();
    let mut out = String::new();
    let mut i = from;
    while i < n
        invariant
            from <= i <= n,
            n == lines@.len(),
            n == lines.deep_view().len(),
            join_nl_from(lines.deep_view(), from as int) == out@ + join_nl_from(
                lines.deep_view(),
                i as int,
            ),
        decreases n - i,
    {
        out.append(lines[i]);
        if i + 1 < n {
            out.append("\n");
            proof {
                reveal_strlit("\n");
                assert("\n"@ =~= seq!['\n']);
            }
        }
        i = i + 1;
    }
    out
}

/// The character for the decimal digit `d`.
pub open spec fn digit_char(d: nat) -> char {
    if d == 0 {
        '0'
    } else if d == 1 {
        '1'
    } else if d == 2 {
        '2'
    } else if d == 3 {
        '3'
    } else if d == 4 {
        '4'
    } else if d == 5 {
        '5'
    } else if d == 6 {
        '6'
    } else if d == 7 {
        '7'
    } else if d == 8 {
        '8'
    } else {
        '9'
    }
}

/// The decimal digits of `n`, most significant first, with no leading zero
/// except for `n == 0` itself.
pub open spec fn dec_digits(n: nat) -> Seq<char>
    decreases n,
{
    if n < 10 {
        seq![digit_char(n)]
    } else {
        dec_digits(n / 10).push(digit_char(n % 10))
    }
}

/// The one-character string for the decimal digit `d`.
pub fn digit_str(d: u64) -> (r: &'static str)
    requires
        d < 10,
    ensures
        r@ == seq![digit_char(d as nat)],
{
    proof {
        reveal_strlit("0");
        reveal_strlit("1");
        reveal_strlit("2");
        reveal_strlit("3");
        reveal_strlit("4");
        reveal_strlit("5");
        reveal_strlit("6");
        reveal_strlit("7");
        reveal_strlit("8");
        reveal_strlit("9");
    }
    let r = match d {
        0 => "0",
        1 => "1",
        2 => "2",
        3 => "3",
        4 => "4",
        5 => "5",
        6 => "6",
        7 => "7",
        8 => "8",
        _ => "9",
    };
    proof {
        assert(r@ =~= seq![digit_char(d as nat)]);
    }
    r
}

/// Renders `n` in decimal.
pub fn u64_to_dec(n: u64) -> (r: String)
    ensures
        r@ == dec_digits(n as nat),
    decreases n,
{
    if n < 10 {
        let mut out = String::new();
        out.append(digit_str(n));
        proof {
            assert(out@ =~= dec_digits(n as nat));
        }
        out
    } else {
        let mut out = u64_to_dec(n / 10);
        out.append(digit_str(n % 10));
        proof {
            assert(out@ =~= dec_digits(n as nat));
        }
        out
    }
}

} // verus!
