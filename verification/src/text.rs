//! Character-level text operations used by template rendering, configuration
//! parsing and SQL generation, each specified over `Seq<char>`.

use vstd::prelude::*;

verus! {

// ---------------------------------------------------------------------------
// Specifications
// ---------------------------------------------------------------------------

/// Unicode `White_Space`, the set that `char::is_whitespace` and `str::trim` use.
pub open spec fn is_whitespace(c: char) -> bool {
    let u = c as u32;
    ||| 0x09 <= u <= 0x0D
    ||| u == 0x20
    ||| u == 0x85
    ||| u == 0xA0
    ||| u == 0x1680
    ||| 0x2000 <= u <= 0x200A
    ||| u == 0x2028
    ||| u == 0x2029
    ||| u == 0x202F
    ||| u == 0x205F
    ||| u == 0x3000
}

/// `s` without its leading whitespace.
pub open spec fn trim_start(s: Seq<char>) -> Seq<char>
    decreases s.len(),
{
    if s.len() > 0 && is_whitespace(s[0]) {
        trim_start(s.drop_first())
    } else {
        s
    }
}

/// `s` without its trailing whitespace.
pub open spec fn trim_end(s: Seq<char>) -> Seq<char>
    decreases s.len(),
{
    if s.len() > 0 && is_whitespace(s.last()) {
        trim_end(s.drop_last())
    } else {
        s
    }
}

/// `s` without leading and trailing whitespace (`str::trim`).
pub open spec fn trimmed(s: Seq<char>) -> Seq<char> {
    trim_end(trim_start(s))
}

/// `true` when `s` holds nothing but whitespace (`s.trim().is_empty()`).
pub open spec fn is_blank(s: Seq<char>) -> bool {
    trimmed(s).len() == 0
}

/// ASCII upper-case letters mapped to lower case, every other character kept.
pub open spec fn ascii_lower_char(c: char) -> char {
    if 'A' <= c <= 'Z' {
        ((c as u32) + 32) as char
    } else {
        c
    }
}

/// `str::to_ascii_lowercase`.
pub open spec fn ascii_lowercase(s: Seq<char>) -> Seq<char> {
    s.map_values(|c: char| ascii_lower_char(c))
}

/// `true` when `pat` occurs in `s` at position `i`.
pub open spec fn matches_at(s: Seq<char>, pat: Seq<char>, i: int) -> bool {
    0 <= i && i + pat.len() <= s.len() && s.subrange(i, i + pat.len()) == pat
}

/// Every non-overlapping occurrence of the non-empty `pat`, scanned from the
/// left, replaced by `rep` (`str::replace`).
pub open spec fn replace_all(s: Seq<char>, pat: Seq<char>, rep: Seq<char>) -> Seq<char>
    decreases s.len(),
{
    if pat.len() == 0 || s.len() == 0 {
        s
    } else if matches_at(s, pat, 0) {
        rep + replace_all(s.subrange(pat.len() as int, s.len() as int), pat, rep)
    } else {
        seq![s[0]] + replace_all(s.drop_first(), pat, rep)
    }
}

/// Position of the first occurrence of the non-empty `pat` in `s`.
pub open spec fn find_first(s: Seq<char>, pat: Seq<char>) -> Option<int>
    decreases s.len(),
{
    if pat.len() == 0 || s.len() < pat.len() {
        None
    } else if matches_at(s, pat, 0) {
        Some(0)
    } else {
        match find_first(s.drop_first(), pat) {
            Some(i) => Some(i + 1),
            None => None,
        }
    }
}

/// Number of non-overlapping occurrences of the non-empty `pat`, scanned from
/// the left (`str::matches(..).count()`).
pub open spec fn count_matches(s: Seq<char>, pat: Seq<char>) -> nat
    decreases s.len(),
{
    if pat.len() == 0 || s.len() < pat.len() {
        0
    } else if matches_at(s, pat, 0) {
        1 + count_matches(s.subrange(pat.len() as int, s.len() as int), pat)
    } else {
        count_matches(s.drop_first(), pat)
    }
}

/// The pieces of `s` between the separator characters in `seps`
/// (`str::split` with a set of characters): `n` separators give `n + 1` pieces.
pub open spec fn split_any(s: Seq<char>, seps: Seq<char>) -> Seq<Seq<char>>
    decreases s.len(),
{
    if s.len() == 0 {
        seq![Seq::<char>::empty()]
    } else {
        let pieces = split_any(s.drop_last(), seps);
        if seps.contains(s.last()) {
            pieces.push(Seq::<char>::empty())
        } else {
            pieces.update(pieces.len() - 1, pieces.last().push(s.last()))
        }
    }
}

/// The pieces joined with `sep` between neighbours (`[T]::join`).
pub open spec fn join(pieces: Seq<Seq<char>>, sep: Seq<char>) -> Seq<char>
    decreases pieces.len(),
{
    if pieces.len() == 0 {
        Seq::<char>::empty()
    } else if pieces.len() == 1 {
        pieces[0]
    } else {
        join(pieces.drop_last(), sep) + sep + pieces.last()
    }
}

/// The ASCII digit for `d` in `0..10`.
pub open spec fn digit_char(d: int) -> char {
    (48 + d) as char
}

/// Decimal digits of a natural number, without leading zeros.
pub open spec fn decimal_digits(n: nat) -> Seq<char>
    decreases n,
{
    if n < 10 {
        seq![digit_char(n as int)]
    } else {
        decimal_digits(n / 10).push(digit_char((n % 10) as int))
    }
}

/// Decimal text of an integer, as `Display` writes it for Rust integers.
pub open spec fn decimal(n: int) -> Seq<char> {
    if n < 0 {
        seq!['-'] + decimal_digits((-n) as nat)
    } else {
        decimal_digits(n as nat)
    }
}

/// Value of `c` as a digit in `radix` (`char::to_digit`), for radix up to 36.
pub open spec fn digit_value(c: char, radix: nat) -> Option<nat> {
    let u = c as u32;
    let v: int = if 48 <= u <= 57 {
        u - 48
    } else if 97 <= u <= 122 {
        u - 97 + 10
    } else if 65 <= u <= 90 {
        u - 65 + 10
    } else {
        radix as int
    };
    if v < radix {
        Some(v as nat)
    } else {
        None
    }
}

/// Value of a run of digits in `radix`, or `None` if some character is no digit.
pub open spec fn digits_value(s: Seq<char>, radix: nat) -> Option<nat>
    decreases s.len(),
{
    if s.len() == 0 {
        Some(0)
    } else {
        match (digits_value(s.drop_last(), radix), digit_value(s.last(), radix)) {
            (Some(high), Some(low)) => Some(high * radix + low),
            _ => None,
        }
    }
}

/// `u32::from_str_radix(s, radix).ok()`: an optional `+`, then at least one
/// digit, and a value that fits in `u32`.
pub open spec fn parse_u32_radix(s: Seq<char>, radix: nat) -> Option<u32> {
    let digits = if s.len() > 0 && s[0] == '+' {
        s.drop_first()
    } else {
        s
    };
    if digits.len() == 0 {
        None
    } else {
        match digits_value(digits, radix) {
            Some(v) => if v <= u32::MAX {
                Some(v as u32)
            } else {
                None
            },
            None => None,
        }
    }
}

// ---------------------------------------------------------------------------
// Lemmas
// ---------------------------------------------------------------------------

proof fn lemma_trim_start_skip(s: Seq<char>, i: int)
    requires
        0 <= i <= s.len(),
        forall|k: int| 0 <= k < i ==> is_whitespace(#[trigger] s[k]),
    ensures
        trim_start(s) == trim_start(s.subrange(i, s.len() as int)),
    decreases i,
{
    if i > 0 {
        assert(is_whitespace(s[0]));
        let t = s.drop_first();
        assert forall|k: int| 0 <= k < i - 1 implies is_whitespace(#[trigger] t[k]) by {
            assert(t[k] == s[k + 1]);
        }
        lemma_trim_start_skip(t, i - 1);
        assert(t.subrange(i - 1, t.len() as int) =~= s.subrange(i, s.len() as int));
    } else {
        assert(s.subrange(0, s.len() as int) =~= s);
    }
}

proof fn lemma_trim_end_skip(s: Seq<char>, j: int)
    requires
        0 <= j <= s.len(),
        forall|k: int| j <= k < s.len() ==> is_whitespace(#[trigger] s[k]),
    ensures
        trim_end(s) == trim_end(s.subrange(0, j)),
    decreases s.len() - j,
{
    if j < s.len() {
        assert(is_whitespace(s.last()));
        let t = s.drop_last();
        assert forall|k: int| j <= k < t.len() implies is_whitespace(#[trigger] t[k]) by {
            assert(t[k] == s[k]);
        }
        lemma_trim_end_skip(t, j);
        assert(t.subrange(0, j) =~= s.subrange(0, j));
    } else {
        assert(s.subrange(0, j) =~= s);
    }
}

/// The whitespace-free view: trimming a string whose ends are not whitespace
/// changes nothing.
pub proof fn lemma_trim_stops(s: Seq<char>)
    ensures
        (s.len() == 0 || !is_whitespace(s[0])) ==> trim_start(s) == s,
        (s.len() == 0 || !is_whitespace(s.last())) ==> trim_end(s) == s,
{
}

proof fn lemma_replace_step(s: Seq<char>, pat: Seq<char>, rep: Seq<char>, i: int)
    requires
        pat.len() > 0,
        0 <= i < s.len(),
    ensures
        matches_at(s, pat, i) ==> replace_all(s.subrange(i, s.len() as int), pat, rep) == rep
            + replace_all(s.subrange(i + pat.len(), s.len() as int), pat, rep),
        !matches_at(s, pat, i) ==> replace_all(s.subrange(i, s.len() as int), pat, rep) == seq![
            s[i],
        ] + replace_all(s.subrange(i + 1, s.len() as int), pat, rep),
{
    let t = s.subrange(i, s.len() as int);
    assert(t.len() > 0);
    if matches_at(s, pat, i) {
        assert(t.subrange(0, pat.len() as int) =~= s.subrange(i, i + pat.len()));
        assert(matches_at(t, pat, 0));
        assert(t.subrange(pat.len() as int, t.len() as int) =~= s.subrange(
            i + pat.len(),
            s.len() as int,
        ));
    } else {
        if matches_at(t, pat, 0) {
            assert(t.subrange(0, pat.len() as int) =~= s.subrange(i, i + pat.len()));
        }
        assert(!matches_at(t, pat, 0));
        assert(t.drop_first() =~= s.subrange(i + 1, s.len() as int));
    }
}

// ---------------------------------------------------------------------------
// Executable operations
// ---------------------------------------------------------------------------

/// Appends one character (`String::push`).
#[verifier::external_body]
pub(crate) fn push_char(s: &mut String, c: char)
    ensures
        final(s)@ == old(s)@.push(c),
{
    s.push(c);
}

/// The characters of `s`.
pub fn chars_of(s: &str) -> (v: Vec<char>)
    ensures
        v@ == s@,
{
    let mut v: Vec<char> = Vec::new();
    for c in it: s.chars()
        invariant
            it.seq() == s@,
            v@ == it.seq().take(it.index() as int),
    {
        v.push(c);
    }
    v
}

/// An owned copy of `s`.
pub fn owned(s: &str) -> (r: String)
    ensures
        r@ == s@,
{
    s.to_owned()
}

/// `c` is whitespace (`char::is_whitespace`).
pub fn char_is_whitespace(c: char) -> (r: bool)
    ensures
        r == is_whitespace(c),
{
    let u = c as u32;
    (0x09 <= u && u <= 0x0D) || u == 0x20 || u == 0x85 || u == 0xA0 || u == 0x1680 || (0x2000
        <= u && u <= 0x200A) || u == 0x2028 || u == 0x2029 || u == 0x202F || u == 0x205F || u
        == 0x3000
}

/// `s` without leading and trailing whitespace (`str::trim`).
pub fn trim(s: &str) -> (r: &str)
    ensures
        r@ == trimmed(s@),
{
    let v = chars_of(s);
    let n = v.len();
    let mut i: usize = 0;
    while i < n && char_is_whitespace(v[i])
        invariant
            n == v@.len(),
            i <= n,
            forall|k: int| 0 <= k < i ==> is_whitespace(#[trigger] v@[k]),
        decreases n - i,
    {
        i += 1;
    }
    let mut j: usize = n;
    while j > i && char_is_whitespace(v[j - 1])
        invariant
            n == v@.len(),
            i <= j <= n,
            forall|k: int| j <= k < n ==> is_whitespace(#[trigger] v@[k]),
        decreases j,
    {
        j -= 1;
    }
    proof {
        let s0 = v@;
        lemma_trim_start_skip(s0, i as int);
        let rest = s0.subrange(i as int, n as int);
        lemma_trim_stops(rest);
        assert(trim_start(s0) == rest);
        assert forall|k: int| j - i <= k < rest.len() implies is_whitespace(#[trigger] rest[k]) by {
            assert(rest[k] == s0[k + i]);
        }
        lemma_trim_end_skip(rest, j - i);
        let mid = rest.subrange(0, j - i);
        assert(mid =~= s0.subrange(i as int, j as int));
        if mid.len() > 0 {
            assert(mid.last() == s0[j - 1]);
        }
        lemma_trim_stops(mid);
    }
    s.substring_char(i, j)
}

/// `true` when `s` is empty or whitespace only (`s.trim().is_empty()`).
pub fn str_is_blank(s: &str) -> (r: bool)
    ensures
        r == is_blank(s@),
{
    trim(s).is_empty()
}

/// `c` with ASCII upper case mapped to lower case (`char::to_ascii_lowercase`).
pub fn char_to_ascii_lowercase(c: char) -> (r: char)
    ensures
        r == ascii_lower_char(c),
{
    if 'A' <= c && c <= 'Z' {
        let b = (c as u32 + 32) as u8;
        b as char
    } else {
        c
    }
}

/// `str::to_ascii_lowercase`.
pub fn to_ascii_lowercase(s: &str) -> (r: String)
    ensures
        r@ == ascii_lowercase(s@),
{
    let v = chars_of(s);
    let mut out = String::new();
    let mut i: usize = 0;
    while i < v.len()
        invariant
            i <= v.len(),
            v@ == s@,
            out@ == ascii_lowercase(v@.take(i as int)),
        decreases v.len() - i,
    {
        let c = char_to_ascii_lowercase(v[i]);
        push_char(&mut out, c);
        assert(ascii_lowercase(v@.take(i + 1)) =~= ascii_lowercase(v@.take(i as int)).push(c));
        i += 1;
    }
    assert(v@.take(v.len() as int) =~= v@);
    out
}

/// `true` when `pat` occurs in `v` at position `i`.
pub fn chars_match_at(v: &Vec<char>, pat: &Vec<char>, i: usize) -> (r: bool)
    ensures
        r == matches_at(v@, pat@, i as int),
{
    if i > v.len() || pat.len() > v.len() - i {
        return false;
    }
    let mut k: usize = 0;
    while k < pat.len()
        invariant
            i + pat.len() <= v.len(),
            k <= pat.len(),
            forall|m: int| 0 <= m < k ==> v@[i + m] == pat@[m],
        decreases pat.len() - k,
    {
        if v[i + k] != pat[k] {
            assert(v@.subrange(i as int, i + pat.len())[k as int] != pat@[k as int]);
            return false;
        }
        k += 1;
    }
    assert(v@.subrange(i as int, i + pat.len()) =~= pat@);
    true
}

/// Every non-overlapping occurrence of `pat` replaced by `rep` (`str::replace`).
pub fn replace(s: &str, pat: &str, rep: &str) -> (r: String)
    requires
        pat@.len() > 0,
    ensures
        r@ == replace_all(s@, pat@, rep@),
{
    let v = chars_of(s);
    let p = chars_of(pat);
    let n = v.len();
    let mut out = String::new();
    let mut i: usize = 0;
    proof {
        assert(v@.subrange(0, n as int) =~= v@);
    }
    while i < n
        invariant
            n == v@.len(),
            v@ == s@,
            p@ == pat@,
            p@.len() > 0,
            i <= n,
            out@ + replace_all(v@.subrange(i as int, n as int), p@, rep@) == replace_all(
                v@,
                p@,
                rep@,
            ),
        decreases n - i,
    {
        proof {
            lemma_replace_step(v@, p@, rep@, i as int);
        }
        if chars_match_at(&v, &p, i) {
            let ghost before = out@;
            out.append(rep);
            assert(out@ + replace_all(v@.subrange(i + p@.len(), n as int), p@, rep@) =~= before
                + (rep@ + replace_all(v@.subrange(i + p@.len(), n as int), p@, rep@)));
            i = i + p.len();
        } else {
            let ghost before = out@;
            push_char(&mut out, v[i]);
            assert(out@ + replace_all(v@.subrange(i + 1, n as int), p@, rep@) =~= before + (seq![
                v@[i as int],
            ] + replace_all(v@.subrange(i + 1, n as int), p@, rep@)));
            i = i + 1;
        }
    }
    assert(v@.subrange(n as int, n as int) =~= Seq::<char>::empty());
    assert(out@ + Seq::<char>::empty() =~= out@);
    out
}


/// `c` is one of `seps`.
pub fn char_in(seps: &Vec<char>, c: char) -> (r: bool)
    ensures
        r == seps@.contains(c),
{
    let mut k: usize = 0;
    while k < seps.len()
        invariant
            k <= seps.len(),
            forall|m: int| 0 <= m < k ==> seps@[m] != c,
        decreases seps.len() - k,
    {
        if seps[k] == c {
            assert(seps@[k as int] == c);
            return true;
        }
        k += 1;
    }
    false
}

/// The views of a vector of strings.
pub open spec fn views(v: Seq<String>) -> Seq<Seq<char>> {
    v.map_values(|x: String| x@)
}

/// The pieces of `s` between separator characters (`str::split` with a set of
/// characters).
pub fn split_on_any(s: &str, seps: &Vec<char>) -> (r: Vec<String>)
    ensures
        views(r@) == split_any(s@, seps@),
{
    let v = chars_of(s);
    let mut pieces: Vec<String> = Vec::new();
    let mut current = String::new();
    let mut i: usize = 0;
    proof {
        assert(v@.take(0) =~= Seq::<char>::empty());
        assert(views(pieces@).push(current@) =~= seq![Seq::<char>::empty()]);
    }
    while i < v.len()
        invariant
            i <= v.len(),
            v@ == s@,
            views(pieces@).push(current@) == split_any(v@.take(i as int), seps@),
        decreases v.len() - i,
    {
        let c = v[i];
        let ghost prev = v@.take(i as int);
        assert(v@.take(i + 1).drop_last() =~= prev);
        assert(v@.take(i + 1).last() == c);
        if char_in(seps, c) {
            let done = current;
            pieces.push(done);
            current = String::new();
            assert(views(pieces@) =~= views(pieces@).drop_last().push(done@));
            assert(views(pieces@).drop_last() =~= views(pieces@.drop_last()));
        } else {
            let ghost before = views(pieces@).push(current@);
            push_char(&mut current, c);
            assert(views(pieces@).push(current@) =~= before.update(
                before.len() - 1,
                before.last().push(c),
            ));
        }
        i += 1;
    }
    let ghost all = views(pieces@).push(current@);
    pieces.push(current);
    assert(views(pieces@) =~= all);
    assert(v@.take(v.len() as int) =~= v@);
    pieces
}

/// The strings of `pieces` joined with `sep` between neighbours (`[String]::join`).
pub fn join_with(pieces: &Vec<String>, sep: &str) -> (r: String)
    ensures
        r@ == join(views(pieces@), sep@),
{
    let mut out = String::new();
    let mut i: usize = 0;
    while i < pieces.len()
        invariant
            i <= pieces.len(),
            out@ == join(views(pieces@).take(i as int), sep@),
        decreases pieces.len() - i,
    {
        let ghost prev = views(pieces@).take(i as int);
        assert(views(pieces@).take(i + 1).drop_last() =~= prev);
        assert(views(pieces@).take(i + 1).last() == pieces@[i as int]@);
        if i > 0 {
            out.append(sep);
        }
        out.append(pieces[i].as_str());
        if i == 0 {
            assert(views(pieces@).take(1) =~= seq![pieces@[0]@]);
        }
        i += 1;
    }
    assert(views(pieces@).take(pieces.len() as int) =~= views(pieces@));
    out
}

proof fn lemma_decimal_digits_step(m: nat)
    requires
        m >= 10,
    ensures
        decimal_digits(m) == decimal_digits(m / 10) + seq![digit_char((m % 10) as int)],
{
    assert(decimal_digits(m / 10).push(digit_char((m % 10) as int)) =~= decimal_digits(m / 10)
        + seq![digit_char((m % 10) as int)]);
}

/// Appends the decimal digits of `m` to `out`.
fn push_decimal_digits(out: &mut String, m: u64)
    ensures
        final(out)@ == old(out)@ + decimal_digits(m as nat),
{
    let mut m = m;
    let ghost m0: nat = m as nat;
    let mut rev: Vec<char> = Vec::new();
    while m >= 10
        invariant
            decimal_digits(m0) == decimal_digits(m as nat) + rev@.reverse(),
        decreases m,
    {
        let d = (m % 10) as u8;
        let c = (48u8 + d) as char;
        proof {
            lemma_decimal_digits_step(m as nat);
            assert(c == digit_char((m % 10) as int));
        }
        let ghost old_rev = rev@;
        rev.push(c);
        assert(rev@.reverse() =~= seq![c] + old_rev.reverse());
        assert(decimal_digits(m as nat) + old_rev.reverse() =~= decimal_digits((m / 10) as nat)
            + rev@.reverse());
        m = m / 10;
    }
    let ghost start = out@;
    let first = (48u8 + m as u8) as char;
    push_char(out, first);
    let ghost head = out@;
    assert(decimal_digits(m as nat) == seq![first]);
    let mut k: usize = rev.len();
    while k > 0
        invariant
            k <= rev.len(),
            out@ == head + rev@.reverse().take((rev.len() - k) as int),
        decreases k,
    {
        k -= 1;
        push_char(out, rev[k]);
        assert(rev@.reverse().take((rev.len() - k) as int) =~= rev@.reverse().take(
            (rev.len() - k - 1) as int,
        ).push(rev@[k as int]));
    }
    assert(rev@.reverse().take(rev.len() as int) =~= rev@.reverse());
    assert(out@ =~= start + decimal_digits(m0));
}

/// Decimal text of `n` (`i64::to_string`).
pub fn i64_to_decimal(n: i64) -> (r: String)
    ensures
        r@ == decimal(n as int),
{
    let m: u64 = if n < 0 {
        if n == i64::MIN {
            9223372036854775808u64
        } else {
            (-n) as u64
        }
    } else {
        n as u64
    };
    let mut out = String::new();
    if n < 0 {
        push_char(&mut out, '-');
    }
    push_decimal_digits(&mut out, m);
    if n < 0 {
        assert(out@ =~= seq!['-'] + decimal_digits(m as nat));
    } else {
        assert(out@ =~= decimal_digits(m as nat));
    }
    out
}

/// Decimal text of `n` (`usize::to_string`).
pub fn usize_to_decimal(n: usize) -> (r: String)
    ensures
        r@ == decimal(n as int),
{
    let mut out = String::new();
    push_decimal_digits(&mut out, n as u64);
    assert(out@ =~= decimal_digits(n as nat));
    out
}

proof fn lemma_digits_none_extends(s: Seq<char>, k: int, radix: nat)
    requires
        0 <= k <= s.len(),
        digits_value(s.take(k), radix) is None,
    ensures
        digits_value(s, radix) is None,
    decreases s.len() - k,
{
    if k < s.len() {
        let next = s.take(k + 1);
        assert(next.drop_last() =~= s.take(k));
        lemma_digits_none_extends(s, k + 1, radix);
    } else {
        assert(s.take(k) =~= s);
    }
}

/// Value of `c` as a digit in `radix` (`char::to_digit`).
pub fn char_digit_value(c: char, radix: u32) -> (r: Option<u32>)
    requires
        2 <= radix <= 36,
    ensures
        r == (match digit_value(c, radix as nat) {
            Some(v) => Some(v as u32),
            None => None,
        }),
{
    let u = c as u32;
    let v: u32 = if 48 <= u && u <= 57 {
        u - 48
    } else if 97 <= u && u <= 122 {
        u - 97 + 10
    } else if 65 <= u && u <= 90 {
        u - 65 + 10
    } else {
        radix
    };
    if v < radix {
        Some(v)
    } else {
        None
    }
}

/// `u32::from_str_radix(s, radix).ok()`.
pub fn parse_u32_in_radix(s: &str, radix: u32) -> (r: Option<u32>)
    requires
        2 <= radix <= 36,
    ensures
        r == parse_u32_radix(s@, radix as nat),
{
    let v = chars_of(s);
    let start: usize = if v.len() > 0 && v[0] == '+' {
        1
    } else {
        0
    };
    proof {
        let digits = v@.subrange(start as int, v@.len() as int);
        if v@.len() > 0 && v@[0] == '+' {
            assert(digits =~= v@.drop_first());
        } else {
            assert(digits =~= v@);
        }
    }
    if start == v.len() {
        return None;
    }
    match digits_up_to(&v, start, radix, 0xFFFF_FFFFu64) {
        Some(value) => Some(value as u32),
        None => None,
    }
}

/// The rest of `s` after `prefix`, when `s` starts with it (`str::strip_prefix`).
pub fn strip_prefix<'a>(s: &'a str, prefix: &str) -> (r: Option<&'a str>)
    ensures
        r matches Some(rest) ==> prefix@.len() <= s@.len() && s@.subrange(0, prefix@.len() as int)
            == prefix@ && rest@ == s@.subrange(prefix@.len() as int, s@.len() as int),
        r is None ==> !(prefix@.len() <= s@.len() && s@.subrange(0, prefix@.len() as int)
            == prefix@),
{
    let v = chars_of(s);
    let p = chars_of(prefix);
    if chars_match_at(&v, &p, 0) {
        Some(s.substring_char(p.len(), v.len()))
    } else {
        None
    }
}

/// Position of the first occurrence of `pat` in `v` at or after `from`.
pub fn find_from(v: &Vec<char>, pat: &Vec<char>, from: usize) -> (r: Option<usize>)
    requires
        pat@.len() > 0,
        from <= v@.len(),
    ensures
        r == (match find_first(v@.subrange(from as int, v@.len() as int), pat@) {
            Some(i) => Some((i + from) as usize),
            None => None,
        }),
{
    let n = v.len();
    let mut i: usize = n;
    // scan backwards so that the invariant can speak of the suffix that is left
    let mut found: Option<usize> = None;
    while i > from
        invariant
            from <= i <= n,
            n == v@.len(),
            pat@.len() > 0,
            found == (match find_first(v@.subrange(i as int, n as int), pat@) {
                Some(k) => Some((k + i) as usize),
                None => None,
            }),
        decreases i,
    {
        i -= 1;
        let ghost t = v@.subrange(i as int, n as int);
        proof {
            if t.len() >= pat@.len() {
                assert(t.subrange(0, pat@.len() as int) =~= v@.subrange(i as int, i + pat@.len()));
            }
            assert(t.drop_first() =~= v@.subrange(i + 1, n as int));
        }
        if chars_match_at(v, pat, i) {
            found = Some(i);
        } else {
            proof {
                if t.len() >= pat@.len() {
                    assert(!matches_at(t, pat@, 0));
                }
            }
        }
    }
    found
}

/// Number of non-overlapping occurrences of `pat` in `v`, scanned from the left.
pub fn count_occurrences(v: &Vec<char>, pat: &Vec<char>) -> (r: usize)
    requires
        pat@.len() > 0,
    ensures
        r == count_matches(v@, pat@),
{
    let n = v.len();
    let mut i: usize = 0;
    let mut count: usize = 0;
    proof {
        assert(v@.subrange(0, n as int) =~= v@);
    }
    while i < n
        invariant
            i <= n,
            n == v@.len(),
            pat@.len() > 0,
            count <= i,
            count + count_matches(v@.subrange(i as int, n as int), pat@) == count_matches(
                v@,
                pat@,
            ),
        decreases n - i,
    {
        let ghost t = v@.subrange(i as int, n as int);
        proof {
            if t.len() >= pat@.len() {
                assert(t.subrange(0, pat@.len() as int) =~= v@.subrange(i as int, i + pat@.len()));
                assert(t.subrange(pat@.len() as int, t.len() as int) =~= v@.subrange(
                    i + pat@.len(),
                    n as int,
                ));
            }
            assert(t.drop_first() =~= v@.subrange(i + 1, n as int));
        }
        if chars_match_at(v, pat, i) {
            count += 1;
            i += pat.len();
        } else {
            proof {
                if t.len() >= pat@.len() {
                    assert(!matches_at(t, pat@, 0));
                }
            }
            i += 1;
        }
    }
    assert(v@.subrange(n as int, n as int).len() == 0);
    count
}


/// `i32::from_str(s).ok()` (what `str::parse::<i32>` gives): an optional `+`
/// or `-`, then at least one decimal digit, and a value in the `i32` range.
pub open spec fn parse_i32_decimal(s: Seq<char>) -> Option<i32> {
    let negative = s.len() > 0 && s[0] == '-';
    let digits = if s.len() > 0 && (s[0] == '+' || s[0] == '-') {
        s.drop_first()
    } else {
        s
    };
    if digits.len() == 0 {
        None
    } else {
        match digits_value(digits, 10) {
            Some(v) => {
                let n: int = if negative {
                    -v
                } else {
                    v as int
                };
                if i32::MIN <= n <= i32::MAX {
                    Some(n as i32)
                } else {
                    None
                }
            },
            None => None,
        }
    }
}

/// The value of the digits `v[start..]` in `radix` when it is at most
/// `limit`; `None` when some character is no digit or the value exceeds `limit`.
fn digits_up_to(v: &Vec<char>, start: usize, radix: u32, limit: u64) -> (r: Option<u64>)
    requires
        2 <= radix <= 36,
        start <= v@.len(),
        limit <= 0xFFFF_FFFFu64,
    ensures
        r == (match digits_value(v@.subrange(start as int, v@.len() as int), radix as nat) {
            Some(w) => if w <= limit {
                Some(w as u64)
            } else {
                None
            },
            None => None,
        }),
{
    let ghost digits = v@.subrange(start as int, v@.len() as int);
    let mut acc: u64 = 0;
    let mut overflow = false;
    let mut i: usize = start;
    proof {
        assert(digits.take(0) =~= Seq::<char>::empty());
    }
    while i < v.len()
        invariant
            start <= i <= v.len(),
            digits == v@.subrange(start as int, v@.len() as int),
            2 <= radix <= 36,
            limit <= 0xFFFF_FFFFu64,
            !overflow ==> acc <= limit && digits_value(digits.take(i - start), radix as nat)
                == Some(acc as nat),
            overflow ==> match digits_value(digits.take(i - start), radix as nat) {
                Some(w) => w > limit,
                None => true,
            },
        decreases v.len() - i,
    {
        let ghost pre = digits.take(i - start);
        let ghost cur = digits.take(i - start + 1);
        assert(cur.drop_last() =~= pre);
        assert(cur.last() == v@[i as int]);
        match char_digit_value(v[i], radix) {
            None => {
                proof {
                    assert(digits_value(cur, radix as nat) is None);
                    assert(digits.take(i - start + 1) == cur);
                    lemma_digits_none_extends(digits, i - start + 1, radix as nat);
                }
                return None;
            },
            Some(d) => {
                if !overflow {
                    assert(acc * (radix as u64) <= 0xFFFF_FFFFu64 * 36) by (nonlinear_arith)
                        requires
                            acc <= 0xFFFF_FFFFu64,
                            radix <= 36,
                    ;
                    let next: u64 = acc * (radix as u64) + (d as u64);
                    if next > limit {
                        overflow = true;
                    } else {
                        acc = next;
                    }
                } else {
                    proof {
                        match digits_value(pre, radix as nat) {
                            Some(w) => {
                                assert(w * radix + d >= w) by (nonlinear_arith)
                                    requires
                                        radix >= 2,
                                        w >= 0,
                                        d >= 0,
                                ;
                            },
                            None => {},
                        }
                    }
                }
            },
        }
        i += 1;
    }
    assert(digits.take(v@.len() - start) =~= digits);
    if overflow {
        None
    } else {
        Some(acc)
    }
}

/// `str::parse::<i32>().ok()`.
pub fn parse_i32(s: &str) -> (r: Option<i32>)
    ensures
        r == parse_i32_decimal(s@),
{
    let v = chars_of(s);
    let negative = v.len() > 0 && v[0] == '-';
    let start: usize = if v.len() > 0 && (v[0] == '+' || v[0] == '-') {
        1
    } else {
        0
    };
    proof {
        let digits = v@.subrange(start as int, v@.len() as int);
        if v@.len() > 0 && (v@[0] == '+' || v@[0] == '-') {
            assert(digits =~= v@.drop_first());
        } else {
            assert(digits =~= v@);
        }
    }
    if start == v.len() {
        return None;
    }
    let limit: u64 = if negative {
        2147483648u64
    } else {
        2147483647u64
    };
    match digits_up_to(&v, start, 10, limit) {
        Some(m) => if negative {
            if m == 2147483648u64 {
                Some(i32::MIN)
            } else {
                Some(-(m as i32))
            }
        } else {
            Some(m as i32)
        },
        None => None,
    }
}


/// Position of the last `c` in `s` (`str::rfind` with a character).
pub open spec fn rfind_char(s: Seq<char>, c: char) -> Option<int>
    decreases s.len(),
{
    if s.len() == 0 {
        None
    } else if s.last() == c {
        Some(s.len() - 1)
    } else {
        rfind_char(s.drop_last(), c)
    }
}

/// `s` without the copies of `c` at its start.
pub open spec fn strip_start_char(s: Seq<char>, c: char) -> Seq<char>
    decreases s.len(),
{
    if s.len() > 0 && s[0] == c {
        strip_start_char(s.drop_first(), c)
    } else {
        s
    }
}

/// `s` without the copies of `c` at its end.
pub open spec fn strip_end_char(s: Seq<char>, c: char) -> Seq<char>
    decreases s.len(),
{
    if s.len() > 0 && s.last() == c {
        strip_end_char(s.drop_last(), c)
    } else {
        s
    }
}

/// `s` without the copies of `c` at either end (`str::trim_matches(c)`).
pub open spec fn strip_char(s: Seq<char>, c: char) -> Seq<char> {
    strip_end_char(strip_start_char(s, c), c)
}

proof fn lemma_strip_start_skip(s: Seq<char>, c: char, i: int)
    requires
        0 <= i <= s.len(),
        forall|k: int| 0 <= k < i ==> #[trigger] s[k] == c,
    ensures
        strip_start_char(s, c) == strip_start_char(s.subrange(i, s.len() as int), c),
    decreases i,
{
    if i > 0 {
        let t = s.drop_first();
        assert forall|k: int| 0 <= k < i - 1 implies #[trigger] t[k] == c by {
            assert(t[k] == s[k + 1]);
        }
        lemma_strip_start_skip(t, c, i - 1);
        assert(t.subrange(i - 1, t.len() as int) =~= s.subrange(i, s.len() as int));
    } else {
        assert(s.subrange(0, s.len() as int) =~= s);
    }
}

proof fn lemma_strip_end_skip(s: Seq<char>, c: char, j: int)
    requires
        0 <= j <= s.len(),
        forall|k: int| j <= k < s.len() ==> #[trigger] s[k] == c,
    ensures
        strip_end_char(s, c) == strip_end_char(s.subrange(0, j), c),
    decreases s.len() - j,
{
    if j < s.len() {
        let t = s.drop_last();
        assert forall|k: int| j <= k < t.len() implies #[trigger] t[k] == c by {
            assert(t[k] == s[k]);
        }
        lemma_strip_end_skip(t, c, j);
        assert(t.subrange(0, j) =~= s.subrange(0, j));
    } else {
        assert(s.subrange(0, j) =~= s);
    }
}

/// `s` without the copies of `c` at either end (`str::trim_matches(c)`).
pub fn trim_char<'a>(s: &'a str, c: char) -> (r: &'a str)
    ensures
        r@ == strip_char(s@, c),
{
    let v = chars_of(s);
    let n = v.len();
    let mut i: usize = 0;
    while i < n && v[i] == c
        invariant
            n == v@.len(),
            i <= n,
            forall|k: int| 0 <= k < i ==> #[trigger] v@[k] == c,
        decreases n - i,
    {
        i += 1;
    }
    let mut j: usize = n;
    while j > i && v[j - 1] == c
        invariant
            n == v@.len(),
            i <= j <= n,
            forall|k: int| j <= k < n ==> #[trigger] v@[k] == c,
        decreases j,
    {
        j -= 1;
    }
    proof {
        let s0 = v@;
        lemma_strip_start_skip(s0, c, i as int);
        let rest = s0.subrange(i as int, n as int);
        assert(strip_start_char(s0, c) == rest);
        assert forall|k: int| j - i <= k < rest.len() implies #[trigger] rest[k] == c by {
            assert(rest[k] == s0[k + i]);
        }
        lemma_strip_end_skip(rest, c, j - i);
        let mid = rest.subrange(0, j - i);
        assert(mid =~= s0.subrange(i as int, j as int));
        if mid.len() > 0 {
            assert(mid.last() == s0[j - 1]);
        }
    }
    s.substring_char(i, j)
}

/// Position of the last `c` among `v[from..to]`.
pub fn rfind_char_in(v: &Vec<char>, c: char, from: usize, to: usize) -> (r: Option<usize>)
    requires
        from <= to <= v@.len(),
    ensures
        r == (match rfind_char(v@.subrange(from as int, to as int), c) {
            Some(k) => Some((k + from) as usize),
            None => None,
        }),
{
    let mut j: usize = to;
    while j > from
        invariant
            from <= j <= to <= v@.len(),
            rfind_char(v@.subrange(from as int, to as int), c) == rfind_char(
                v@.subrange(from as int, j as int),
                c,
            ),
        decreases j,
    {
        let ghost t = v@.subrange(from as int, j as int);
        assert(t.last() == v@[j - 1]);
        if v[j - 1] == c {
            return Some(j - 1);
        }
        assert(t.drop_last() =~= v@.subrange(from as int, j - 1));
        j -= 1;
    }
    None
}

/// A `String` holding `v[from..to]`.
pub fn string_of_range(v: &Vec<char>, from: usize, to: usize) -> (s: String)
    requires
        from <= to <= v@.len(),
    ensures
        s@ == v@.subrange(from as int, to as int),
{
    let mut s = String::new();
    let mut i: usize = from;
    while i < to
        invariant
            from <= i <= to <= v@.len(),
            s@ == v@.subrange(from as int, i as int),
        decreases to - i,
    {
        push_char(&mut s, v[i]);
        assert(v@.subrange(from as int, i + 1) =~= v@.subrange(from as int, i as int).push(
            v@[i as int],
        ));
        i += 1;
    }
    s
}


/// A found occurrence is an occurrence.
pub proof fn lemma_find_first_matches(s: Seq<char>, pat: Seq<char>)
    ensures
        find_first(s, pat) matches Some(i) ==> matches_at(s, pat, i),
    decreases s.len(),
{
    if pat.len() > 0 && s.len() >= pat.len() && !matches_at(s, pat, 0) {
        lemma_find_first_matches(s.drop_first(), pat);
        if let Some(i) = find_first(s.drop_first(), pat) {
            assert(s.subrange(i + 1, i + 1 + pat.len()) =~= s.drop_first().subrange(i, i + pat.len()));
        }
    }
}

/// A found character is that character.
pub proof fn lemma_rfind_char_found(s: Seq<char>, c: char)
    ensures
        rfind_char(s, c) matches Some(k) ==> 0 <= k < s.len() && s[k] == c,
    decreases s.len(),
{
    if s.len() > 0 && s.last() != c {
        lemma_rfind_char_found(s.drop_last(), c);
    }
}


// ---------------------------------------------------------------------------
// Lemmas on lower-casing
// ---------------------------------------------------------------------------

/// Lower-casing twice is lower-casing once.
pub proof fn lemma_lowercase_idempotent(s: Seq<char>)
    ensures
        ascii_lowercase(ascii_lowercase(s)) == ascii_lowercase(s),
{
    assert(ascii_lowercase(ascii_lowercase(s)) =~= ascii_lowercase(s));
}

/// Lower-casing keeps whitespace and non-whitespace apart.
pub proof fn lemma_lower_char_whitespace(c: char)
    ensures
        is_whitespace(ascii_lower_char(c)) == is_whitespace(c),
{
}

/// Trimming commutes with ASCII lower-casing.
pub proof fn lemma_trim_lowercase(s: Seq<char>)
    ensures
        trimmed(ascii_lowercase(s)) == ascii_lowercase(trimmed(s)),
{
    lemma_trim_start_lowercase(s);
    lemma_trim_end_lowercase(trim_start(s));
}

proof fn lemma_trim_start_lowercase(s: Seq<char>)
    ensures
        trim_start(ascii_lowercase(s)) == ascii_lowercase(trim_start(s)),
    decreases s.len(),
{
    if s.len() > 0 {
        lemma_lower_char_whitespace(s[0]);
        assert(ascii_lowercase(s)[0] == ascii_lower_char(s[0]));
        if is_whitespace(s[0]) {
            assert(ascii_lowercase(s).drop_first() =~= ascii_lowercase(s.drop_first()));
            lemma_trim_start_lowercase(s.drop_first());
        }
    } else {
        assert(ascii_lowercase(s) =~= s);
    }
}

proof fn lemma_trim_end_lowercase(s: Seq<char>)
    ensures
        trim_end(ascii_lowercase(s)) == ascii_lowercase(trim_end(s)),
    decreases s.len(),
{
    if s.len() > 0 {
        lemma_lower_char_whitespace(s.last());
        assert(ascii_lowercase(s).last() == ascii_lower_char(s.last()));
        if is_whitespace(s.last()) {
            assert(ascii_lowercase(s).drop_last() =~= ascii_lowercase(s.drop_last()));
            lemma_trim_end_lowercase(s.drop_last());
        }
    } else {
        assert(ascii_lowercase(s) =~= s);
    }
}

/// Trimming an already trimmed text changes nothing.
pub proof fn lemma_trim_idempotent(s: Seq<char>)
    ensures
        trimmed(trimmed(s)) == trimmed(s),
{
    lemma_trim_start_result(s);
    let a = trim_start(s);
    lemma_trim_end_result(a);
    let b = trim_end(a);
    // `b` starts where `a` does, unless it is empty
    lemma_trim_end_prefix(a);
    if b.len() > 0 {
        assert(b[0] == a[0]);
    }
    lemma_trim_stops(b);
}

proof fn lemma_trim_start_result(s: Seq<char>)
    ensures
        trim_start(s).len() == 0 || !is_whitespace(trim_start(s)[0]),
    decreases s.len(),
{
    if s.len() > 0 && is_whitespace(s[0]) {
        lemma_trim_start_result(s.drop_first());
    }
}

proof fn lemma_trim_end_result(s: Seq<char>)
    ensures
        trim_end(s).len() == 0 || !is_whitespace(trim_end(s).last()),
    decreases s.len(),
{
    if s.len() > 0 && is_whitespace(s.last()) {
        lemma_trim_end_result(s.drop_last());
    }
}

proof fn lemma_trim_end_prefix(s: Seq<char>)
    ensures
        trim_end(s).len() <= s.len(),
        trim_end(s) == s.subrange(0, trim_end(s).len() as int),
    decreases s.len(),
{
    if s.len() > 0 && is_whitespace(s.last()) {
        lemma_trim_end_prefix(s.drop_last());
        assert(s.drop_last().subrange(0, trim_end(s).len() as int) =~= s.subrange(
            0,
            trim_end(s).len() as int,
        ));
    } else {
        assert(s.subrange(0, s.len() as int) =~= s);
    }
}

/// Splitting at separators that are no ASCII letters commutes with lower-casing.
pub proof fn lemma_split_lowercase(s: Seq<char>, seps: Seq<char>)
    requires
        forall|i: int| 0 <= i < seps.len() ==> !('A' <= #[trigger] seps[i] <= 'Z') && !('a'
            <= seps[i] <= 'z'),
    ensures
        split_any(ascii_lowercase(s), seps) == split_any(s, seps).map_values(
            |p: Seq<char>| ascii_lowercase(p),
        ),
    decreases s.len(),
{
    if s.len() == 0 {
        assert(ascii_lowercase(s) =~= s);
        assert(ascii_lowercase(Seq::<char>::empty()) =~= Seq::<char>::empty());
        assert(split_any(s, seps).map_values(|p: Seq<char>| ascii_lowercase(p)) =~= seq![
            Seq::<char>::empty(),
        ]);
    } else {
        let l = ascii_lowercase(s);
        let c = s.last();
        let lc = ascii_lower_char(c);
        assert(l.len() > 0);
        assert(l.drop_last() =~= ascii_lowercase(s.drop_last()));
        assert(l.last() == lc);
        lemma_split_lowercase(s.drop_last(), seps);
        lemma_split_nonempty(s.drop_last(), seps);
        if seps.contains(c) {
            let k = choose|k: int| 0 <= k < seps.len() && seps[k] == c;
            assert(lc == c);
        }
        if seps.contains(lc) {
            let k = choose|k: int| 0 <= k < seps.len() && seps[k] == lc;
            assert(lc == c);
        }
        let pieces = split_any(s.drop_last(), seps);
        let lowered = pieces.map_values(|p: Seq<char>| ascii_lowercase(p));
        assert(split_any(l.drop_last(), seps) == lowered);
        assert(ascii_lowercase(Seq::<char>::empty()) =~= Seq::<char>::empty());
        if seps.contains(c) {
            assert(split_any(s, seps) == pieces.push(Seq::<char>::empty()));
            assert(split_any(l, seps) == lowered.push(Seq::<char>::empty()));
            assert(pieces.push(Seq::<char>::empty()).map_values(|p: Seq<char>| ascii_lowercase(p))
                =~= lowered.push(Seq::<char>::empty()));
        } else {
            let last = pieces.last();
            assert(split_any(s, seps) == pieces.update(pieces.len() - 1, last.push(c)));
            assert(split_any(l, seps) == lowered.update(
                lowered.len() - 1,
                lowered.last().push(lc),
            ));
            assert(lowered.last() == ascii_lowercase(last));
            assert(ascii_lowercase(last.push(c)) =~= ascii_lowercase(last).push(lc));
            assert(pieces.update(pieces.len() - 1, last.push(c)).map_values(
                |p: Seq<char>| ascii_lowercase(p),
            ) =~= lowered.update(lowered.len() - 1, lowered.last().push(lc)));
        }
    }
}

/// Splitting gives at least one piece.
pub proof fn lemma_split_nonempty(s: Seq<char>, seps: Seq<char>)
    ensures
        split_any(s, seps).len() >= 1,
    decreases s.len(),
{
    if s.len() > 0 {
        lemma_split_nonempty(s.drop_last(), seps);
    }
}

/// A text without separators is one piece.
pub proof fn lemma_split_single(s: Seq<char>, seps: Seq<char>)
    requires
        forall|i: int| 0 <= i < s.len() ==> !seps.contains(#[trigger] s[i]),
    ensures
        split_any(s, seps) == seq![s],
    decreases s.len(),
{
    if s.len() > 0 {
        assert forall|i: int| 0 <= i < s.drop_last().len() implies !seps.contains(
            #[trigger] s.drop_last()[i],
        ) by {
            assert(s.drop_last()[i] == s[i]);
        }
        lemma_split_single(s.drop_last(), seps);
        assert(!seps.contains(s[s.len() - 1]));
        assert(s.drop_last().push(s.last()) =~= s);
        assert(split_any(s, seps) =~= seq![s]);
    } else {
        assert(s =~= Seq::<char>::empty());
    }
}


/// Appending text without separators extends the last piece.
pub proof fn lemma_split_append_plain(s: Seq<char>, t: Seq<char>, seps: Seq<char>)
    requires
        forall|i: int| 0 <= i < t.len() ==> !seps.contains(#[trigger] t[i]),
    ensures
        split_any(s + t, seps) == split_any(s, seps).update(
            split_any(s, seps).len() - 1,
            split_any(s, seps).last() + t,
        ),
    decreases t.len(),
{
    lemma_split_nonempty(s, seps);
    if t.len() == 0 {
        assert(s + t =~= s);
        assert(split_any(s, seps).last() + t =~= split_any(s, seps).last());
        assert(split_any(s, seps).update(
            split_any(s, seps).len() - 1,
            split_any(s, seps).last(),
        ) =~= split_any(s, seps));
    } else {
        let u = t.drop_last();
        assert forall|i: int| 0 <= i < u.len() implies !seps.contains(#[trigger] u[i]) by {
            assert(u[i] == t[i]);
        }
        lemma_split_append_plain(s, u, seps);
        assert((s + t).drop_last() =~= s + u);
        assert((s + t).last() == t.last());
        assert(!seps.contains(t[t.len() - 1]));
        let ps = split_any(s, seps);
        let pu = split_any(s + u, seps);
        assert(pu.len() == ps.len());
        assert((ps.last() + u).push(t.last()) =~= ps.last() + t);
        assert(pu.update(pu.len() - 1, pu.last().push(t.last())) =~= ps.update(
            ps.len() - 1,
            ps.last() + t,
        ));
    }
}

/// Replacing a one-character pattern that does not occur changes nothing.
pub proof fn lemma_replace_absent(s: Seq<char>, pat: Seq<char>, rep: Seq<char>)
    requires
        pat.len() == 1,
        !s.contains(pat[0]),
    ensures
        replace_all(s, pat, rep) == s,
    decreases s.len(),
{
    if s.len() > 0 {
        if matches_at(s, pat, 0) {
            assert(s.subrange(0, 1)[0] == s[0]);
            assert(s.contains(s[0]));
        }
        assert forall|x: char| s.drop_first().contains(x) implies s.contains(x) by {
            let k = choose|k: int| 0 <= k < s.drop_first().len() && s.drop_first()[k] == x;
            assert(s[k + 1] == x);
        }
        lemma_replace_absent(s.drop_first(), pat, rep);
        assert(seq![s[0]] + s.drop_first() =~= s);
    }
}

/// Replacing a pattern whose first character does not occur changes nothing.
pub proof fn lemma_replace_without_first_char(s: Seq<char>, pat: Seq<char>, rep: Seq<char>)
    requires
        pat.len() > 0,
        !s.contains(pat[0]),
    ensures
        replace_all(s, pat, rep) == s,
    decreases s.len(),
{
    if s.len() > 0 {
        if matches_at(s, pat, 0) {
            assert(s.subrange(0, pat.len() as int)[0] == s[0]);
            assert(s.contains(s[0]));
        }
        assert forall|x: char| s.drop_first().contains(x) implies s.contains(x) by {
            let k = choose|k: int| 0 <= k < s.drop_first().len() && s.drop_first()[k] == x;
            assert(s[k + 1] == x);
        }
        lemma_replace_without_first_char(s.drop_first(), pat, rep);
        assert(seq![s[0]] + s.drop_first() =~= s);
    }
}

/// A text that is exactly the pattern is replaced as a whole.
pub proof fn lemma_replace_whole(pat: Seq<char>, rep: Seq<char>)
    requires
        pat.len() > 0,
    ensures
        replace_all(pat, pat, rep) == rep,
{
    assert(pat.subrange(0, pat.len() as int) =~= pat);
    assert(matches_at(pat, pat, 0));
    let rest = pat.subrange(pat.len() as int, pat.len() as int);
    assert(rest.len() == 0);
    assert(replace_all(rest, pat, rep) == rest);
    assert(replace_all(pat, pat, rep) == rep + replace_all(rest, pat, rep));
    assert(rep + rest =~= rep);
}

} // verus!
