//! Character-level string utilities with contracts over `Seq<char>`.

use vstd::prelude::*;
use vstd::utf8::{decode_utf8, valid_utf8};

verus! {

/// The characters of `s`, in order.
pub fn chars_of(s: &str) -> (r: Vec<char>)
    ensures
        r@ == s@,
{
    let mut r: Vec<char> = Vec::new();
    for c in it: s.chars()
        invariant
            it.seq() == s@,
            r@ == it.seq().take(it.index()),
    {
        r.push(c);
    }
    r
}

/// Appends one character to a string (`String::push`).
#[verifier::external_body]
pub(crate) fn push_char(s: &mut String, c: char)
    ensures
        final(s)@ == old(s)@.push(c),
{
    s.push(c);
}

/// The string made of `v[from..to]`.
pub fn string_from_range(v: &Vec<char>, from: usize, to: usize) -> (r: String)
    requires
        from <= to <= v.len(),
    ensures
        r@ == v@.subrange(from as int, to as int),
{
    let mut r = String::new();
    let mut i = from;
    while i < to
        invariant
            from <= i <= to <= v.len(),
            r@ == v@.subrange(from as int, i as int),
        decreases to - i,
    {
        push_char(&mut r, v[i]);
        assert(v@.subrange(from as int, i + 1) == v@.subrange(from as int, i as int).push(v@[i as int]));
        i += 1;
    }
    r
}

/// The string made of all of `v`.
pub fn string_from_chars(v: &Vec<char>) -> (r: String)
    ensures
        r@ == v@,
{
    let r = string_from_range(v, 0, v.len());
    assert(v@.subrange(0, v@.len() as int) == v@);
    r
}

/// Whitespace as `char::is_whitespace` defines it: the Unicode `White_Space` property.
pub open spec fn is_ws(c: char) -> bool {
    let u = c as u32;
    ||| (0x09 <= u && u <= 0x0D)
    ||| u == 0x20
    ||| u == 0x85
    ||| u == 0xA0
    ||| u == 0x1680
    ||| (0x2000 <= u && u <= 0x200A)
    ||| u == 0x2028
    ||| u == 0x2029
    ||| u == 0x202F
    ||| u == 0x205F
    ||| u == 0x3000
}

/// Executable form of [`is_ws`].
pub fn is_whitespace(c: char) -> (r: bool)
    ensures
        r == is_ws(c),
{
    let u = c as u32;
    (0x09 <= u && u <= 0x0D) || u == 0x20 || u == 0x85 || u == 0xA0 || u == 0x1680 || (0x2000
        <= u && u <= 0x200A) || u == 0x2028 || u == 0x2029 || u == 0x202F || u == 0x205F || u
        == 0x3000
}

/// `s` without its leading whitespace.
pub open spec fn trim_start(s: Seq<char>) -> Seq<char>
    decreases s.len(),
{
    if s.len() > 0 && is_ws(s[0]) {
        trim_start(s.drop_first())
    } else {
        s
    }
}

/// `s` without its trailing whitespace.
pub open spec fn trim_end(s: Seq<char>) -> Seq<char>
    decreases s.len(),
{
    if s.len() > 0 && is_ws(s.last()) {
        trim_end(s.drop_last())
    } else {
        s
    }
}

/// `s` without leading and trailing whitespace (`str::trim`).
pub open spec fn trim(s: Seq<char>) -> Seq<char> {
    trim_end(trim_start(s))
}

proof fn lemma_trim_start_skip(s: Seq<char>, i: int)
    requires
        0 <= i <= s.len(),
        forall|k: int| 0 <= k < i ==> is_ws(#[trigger] s[k]),
    ensures
        trim_start(s) == trim_start(s.skip(i)),
    decreases i,
{
    if i > 0 {
        assert(s.skip(i) == s.drop_first().skip(i - 1));
        lemma_trim_start_skip(s.drop_first(), i - 1);
        assert(s.skip(0) == s);
    } else {
        assert(s.skip(0) == s);
    }
}

proof fn lemma_trim_end_take(s: Seq<char>, j: int)
    requires
        0 <= j <= s.len(),
        forall|k: int| j <= k < s.len() ==> is_ws(#[trigger] s[k]),
    ensures
        trim_end(s) == trim_end(s.take(j)),
    decreases s.len() - j,
{
    if j < s.len() {
        assert(s.drop_last().take(j) == s.take(j));
        lemma_trim_end_take(s.drop_last(), j);
    } else {
        assert(s.take(j) == s);
    }
}

/// `s` with leading and trailing whitespace removed.
pub fn trim_str(s: &str) -> (r: String)
    ensures
        r@ == trim(s@),
{
    let v = chars_of(s);
    let n = v.len();
    let mut i: usize = 0;
    while i < n && is_whitespace(v[i])
        invariant
            i <= n == v@.len(),
            forall|k: int| 0 <= k < i ==> is_ws(#[trigger] v@[k]),
        decreases n - i,
    {
        i += 1;
    }
    let mut j: usize = n;
    while j > i && is_whitespace(v[j - 1])
        invariant
            i <= j <= n == v@.len(),
            forall|k: int| j <= k < n ==> is_ws(#[trigger] v@[k]),
        decreases j,
    {
        j -= 1;
    }
    proof {
        lemma_trim_start_skip(v@, i as int);
        let t = v@.skip(i as int);
        if i < n {
            assert(t[0] == v@[i as int]);
        }
        assert(trim_start(t) == t);
        assert forall|k: int| j - i <= k < t.len() implies is_ws(#[trigger] t[k]) by {
            assert(t[k] == v@[k + i]);
        }
        lemma_trim_end_take(t, j - i);
        let u = t.take(j - i);
        if j > i {
            assert(u.last() == v@[j - 1]);
        }
        assert(trim_end(u) == u);
        assert(u == v@.subrange(i as int, j as int));
    }
    string_from_range(&v, i, j)
}


/// `c` with a trailing carriage return removed, if it has one.
pub open spec fn strip_cr(c: Seq<char>) -> Seq<char> {
    if c.len() > 0 && c.last() == '\r' {
        c.drop_last()
    } else {
        c
    }
}

/// Reading `t` from the left: the lines completed so far, and the line in progress.
pub open spec fn line_state(t: Seq<char>) -> (Seq<Seq<char>>, Seq<char>)
    decreases t.len(),
{
    if t.len() == 0 {
        (Seq::empty(), Seq::empty())
    } else {
        let (done, cur) = line_state(t.drop_last());
        if t.last() == '\n' {
            (done.push(strip_cr(cur)), Seq::empty())
        } else {
            (done, cur.push(t.last()))
        }
    }
}

/// The lines of `s` as `str::lines` yields them: split at `\n`, one `\r` before
/// each `\n` dropped, and no final empty line after a trailing `\n`.
pub open spec fn lines(s: Seq<char>) -> Seq<Seq<char>> {
    let (done, cur) = line_state(s);
    if cur.len() > 0 {
        done.push(cur)
    } else {
        done
    }
}

/// The views of a sequence of strings.
pub open spec fn views(v: Seq<String>) -> Seq<Seq<char>> {
    v.map_values(|x: String| x@)
}

/// Removes one trailing `\r` from `cur`.
fn strip_cr_vec(cur: &mut Vec<char>)
    ensures
        final(cur)@ == strip_cr(old(cur)@),
{
    let n = cur.len();
    if n > 0 && cur[n - 1] == '\r' {
        cur.pop();
    }
}

/// The lines of `s` (`str::lines`).
pub fn lines_of(s: &str) -> (r: Vec<String>)
    ensures
        views(r@) == lines(s@),
{
    let v = chars_of(s);
    let mut done: Vec<String> = Vec::new();
    let mut cur: Vec<char> = Vec::new();
    let mut i: usize = 0;
    while i < v.len()
        invariant
            i <= v@.len(),
            v@ == s@,
            line_state(v@.take(i as int)) == (views(done@), cur@),
        decreases v.len() - i,
    {
        let c = v[i];
        assert(v@.take(i + 1).drop_last() == v@.take(i as int));
        if c == '\n' {
            strip_cr_vec(&mut cur);
            let line = string_from_chars(&cur);
            let ghost before = done@;
            done.push(line);
            cur = Vec::new();
            assert(views(done@) =~= views(before).push(line@));
        } else {
            cur.push(c);
        }
        i += 1;
    }
    assert(v@.take(v@.len() as int) == v@);
    if cur.len() > 0 {
        let line = string_from_chars(&cur);
        let ghost before = done@;
        done.push(line);
        assert(views(done@) =~= views(before).push(line@));
    }
    done
}


/// Reading `t` from the left: the pieces completed so far, and the piece in progress.
pub open spec fn split_state(t: Seq<char>, sep: char) -> (Seq<Seq<char>>, Seq<char>)
    decreases t.len(),
{
    if t.len() == 0 {
        (Seq::empty(), Seq::empty())
    } else {
        let (done, cur) = split_state(t.drop_last(), sep);
        if t.last() == sep {
            (done.push(cur), Seq::empty())
        } else {
            (done, cur.push(t.last()))
        }
    }
}

/// The pieces of `s` between occurrences of `sep` (`str::split` on a character):
/// one more piece than there are separators, empty pieces included.
pub open spec fn split(s: Seq<char>, sep: char) -> Seq<Seq<char>> {
    let (done, cur) = split_state(s, sep);
    done.push(cur)
}

/// The pieces of `s` between occurrences of `sep`.
pub fn split_on(s: &str, sep: char) -> (r: Vec<String>)
    ensures
        views(r@) == split(s@, sep),
{
    let v = chars_of(s);
    let mut done: Vec<String> = Vec::new();
    let mut cur: Vec<char> = Vec::new();
    let mut i: usize = 0;
    while i < v.len()
        invariant
            i <= v@.len(),
            v@ == s@,
            split_state(v@.take(i as int), sep) == (views(done@), cur@),
        decreases v.len() - i,
    {
        let c = v[i];
        assert(v@.take(i + 1).drop_last() == v@.take(i as int));
        if c == sep {
            let piece = string_from_chars(&cur);
            let ghost before = done@;
            done.push(piece);
            cur = Vec::new();
            assert(views(done@) =~= views(before).push(piece@));
        } else {
            cur.push(c);
        }
        i += 1;
    }
    assert(v@.take(v@.len() as int) == v@);
    let piece = string_from_chars(&cur);
    let ghost before = done@;
    done.push(piece);
    assert(views(done@) =~= views(before).push(piece@));
    done
}

/// The elements of `list` with `sep` between each two neighbours (`join`).
pub open spec fn join(list: Seq<Seq<char>>, sep: Seq<char>) -> Seq<char>
    decreases list.len(),
{
    if list.len() == 0 {
        Seq::empty()
    } else if list.len() == 1 {
        list[0]
    } else {
        join(list.drop_last(), sep) + sep + list.last()
    }
}

/// Joins the strings of `list` with `sep` between each two neighbours.
pub fn join_strings(list: &Vec<String>, sep: &str) -> (r: String)
    ensures
        r@ == join(views(list@), sep@),
{
    let mut r = String::new();
    let mut i: usize = 0;
    while i < list.len()
        invariant
            i <= list@.len(),
            r@ == join(views(list@).take(i as int), sep@),
        decreases list.len() - i,
    {
        assert(views(list@).take(i + 1).drop_last() == views(list@).take(i as int));
        if i > 0 {
            r.append(sep);
        }
        r.append(list[i].as_str());
        i += 1;
    }
    assert(views(list@).take(list@.len() as int) == views(list@));
    r
}

/// `c` with ASCII upper-case letters mapped to lower case (`char::to_ascii_lowercase`).
pub open spec fn ascii_lower(c: char) -> char {
    if 'A' <= c && c <= 'Z' {
        ((c as u32) + 32) as char
    } else {
        c
    }
}

/// ASCII case-insensitive equality (`str::eq_ignore_ascii_case`).
pub open spec fn eq_ignore_ascii_case(a: Seq<char>, b: Seq<char>) -> bool {
    &&& a.len() == b.len()
    &&& forall|i: int| 0 <= i < a.len() ==> ascii_lower(#[trigger] a[i]) == ascii_lower(b[i])
}

fn ascii_lower_char(c: char) -> (r: char)
    ensures
        r == ascii_lower(c),
{
    if 'A' <= c && c <= 'Z' {
        ((c as u8) + 32) as char
    } else {
        c
    }
}

/// Whether `a` and `b` are equal up to ASCII case.
pub fn str_eq_ignore_ascii_case(a: &str, b: &str) -> (r: bool)
    ensures
        r == eq_ignore_ascii_case(a@, b@),
{
    let x = chars_of(a);
    let y = chars_of(b);
    if x.len() != y.len() {
        return false;
    }
    let mut i: usize = 0;
    while i < x.len()
        invariant
            i <= x@.len() == y@.len(),
            x@ == a@,
            y@ == b@,
            forall|k: int| 0 <= k < i ==> ascii_lower(#[trigger] x@[k]) == ascii_lower(y@[k]),
        decreases x.len() - i,
    {
        if ascii_lower_char(x[i]) != ascii_lower_char(y[i]) {
            return false;
        }
        i += 1;
    }
    true
}

/// Whether `a` and `b` hold the same characters.
pub fn str_eq(a: &str, b: &str) -> (r: bool)
    ensures
        r == (a@ == b@),
{
    let x = chars_of(a);
    let y = chars_of(b);
    if x.len() != y.len() {
        return false;
    }
    let mut i: usize = 0;
    while i < x.len()
        invariant
            i <= x@.len() == y@.len(),
            x@ == a@,
            y@ == b@,
            forall|k: int| 0 <= k < i ==> #[trigger] x@[k] == y@[k],
        decreases x.len() - i,
    {
        if x[i] != y[i] {
            return false;
        }
        i += 1;
    }
    assert(x@ =~= y@);
    true
}

/// Whether `s` is one of the strings of `v`.
pub fn contains_str(v: &Vec<String>, s: &str) -> (r: bool)
    ensures
        r == views(v@).contains(s@),
{
    let mut i: usize = 0;
    while i < v.len()
        invariant
            i <= v@.len(),
            forall|k: int| 0 <= k < i ==> #[trigger] views(v@)[k] != s@,
        decreases v.len() - i,
    {
        if str_eq(v[i].as_str(), s) {
            assert(views(v@)[i as int] == s@);
            return true;
        }
        i += 1;
    }
    false
}

/// Some string of `v` equals `s` up to ASCII case.
pub open spec fn contains_ignore_ascii_case(v: Seq<Seq<char>>, s: Seq<char>) -> bool {
    exists|i: int| 0 <= i < v.len() && eq_ignore_ascii_case(#[trigger] v[i], s)
}

/// Whether some string of `v` equals `s` up to ASCII case.
pub fn any_eq_ignore_ascii_case(v: &Vec<String>, s: &str) -> (r: bool)
    ensures
        r == contains_ignore_ascii_case(views(v@), s@),
{
    let mut i: usize = 0;
    while i < v.len()
        invariant
            i <= v@.len(),
            forall|k: int| 0 <= k < i ==> !eq_ignore_ascii_case(#[trigger] views(v@)[k], s@),
        decreases v.len() - i,
    {
        if str_eq_ignore_ascii_case(v[i].as_str(), s) {
            assert(eq_ignore_ascii_case(views(v@)[i as int], s@));
            return true;
        }
        i += 1;
    }
    false
}

/// Each entry of `s` trimmed, with the entries that trim to nothing left out.
pub open spec fn normalized(s: Seq<Seq<char>>) -> Seq<Seq<char>>
    decreases s.len(),
{
    if s.len() == 0 {
        Seq::empty()
    } else if trim(s.last()).len() > 0 {
        normalized(s.drop_last()).push(trim(s.last()))
    } else {
        normalized(s.drop_last())
    }
}

/// Each string of `values` trimmed, with those that trim to nothing left out.
pub fn trimmed_nonempty(values: &Vec<String>) -> (r: Vec<String>)
    ensures
        views(r@) == normalized(views(values@)),
{
    let mut out: Vec<String> = Vec::new();
    let mut i: usize = 0;
    while i < values.len()
        invariant
            i <= values@.len(),
            views(out@) == normalized(views(values@).take(i as int)),
        decreases values.len() - i,
    {
        let t = trim_str(values[i].as_str());
        assert(views(values@).take(i + 1).drop_last() == views(values@).take(i as int));
        if !t.as_str().is_empty() {
            let ghost before = out@;
            out.push(t);
            assert(views(out@) =~= views(before).push(t@));
        }
        i += 1;
    }
    assert(views(values@).take(values@.len() as int) == views(values@));
    out
}

/// Some member of the set `s` equals `x` up to ASCII case.
pub open spec fn set_contains_ignore_ascii_case(s: Set<Seq<char>>, x: Seq<char>) -> bool {
    exists|e: Seq<char>| s.contains(e) && eq_ignore_ascii_case(e, x)
}

/// Searching a list up to ASCII case is searching the set of its elements.
pub proof fn lemma_contains_ignore_case_to_set(v: Seq<Seq<char>>, x: Seq<char>)
    ensures
        contains_ignore_ascii_case(v, x) == set_contains_ignore_ascii_case(v.to_set(), x),
{
    if contains_ignore_ascii_case(v, x) {
        let i = choose|i: int| 0 <= i < v.len() && eq_ignore_ascii_case(#[trigger] v[i], x);
        assert(v.to_set().contains(v[i]));
    }
    if set_contains_ignore_ascii_case(v.to_set(), x) {
        let e = choose|e: Seq<char>| v.to_set().contains(e) && eq_ignore_ascii_case(e, x);
        assert(v.contains(e));
        let i = choose|i: int| 0 <= i < v.len() && v[i] == e;
        assert(eq_ignore_ascii_case(v[i], x));
    }
}

/// The decimal digit character for `d < 10`.
pub open spec fn digit_char(d: nat) -> char {
    ((d + 48) as u8) as char
}

/// The decimal representation of `n`, without leading zeros.
pub open spec fn decimal(n: nat) -> Seq<char>
    decreases n,
{
    if n < 10 {
        seq![digit_char(n)]
    } else {
        decimal(n / 10).push(digit_char(n % 10))
    }
}

/// The decimal representation of `n`, with a leading `-` when negative.
pub open spec fn signed_decimal(n: int) -> Seq<char> {
    if n < 0 {
        seq!['-'] + decimal((-n) as nat)
    } else {
        decimal(n as nat)
    }
}

/// Formats `n` in decimal (`{}` on an unsigned integer).
pub fn fmt_u64(n: u64) -> (r: String)
    ensures
        r@ == decimal(n as nat),
    decreases n,
{
    let d = (n % 10) as u8;
    let c = (d + 48) as char;
    if n < 10 {
        let mut r = String::new();
        push_char(&mut r, c);
        assert(r@ =~= seq![digit_char(n as nat)]);
        r
    } else {
        let mut r = fmt_u64(n / 10);
        push_char(&mut r, c);
        r
    }
}

/// Formats `n` in decimal (`{}` on a signed integer).
pub fn fmt_i64(n: i64) -> (r: String)
    ensures
        r@ == signed_decimal(n as int),
{
    if n < 0 {
        let m: u64 = if n == i64::MIN {
            9223372036854775808u64
        } else {
            (-n) as u64
        };
        let mut r = String::new();
        push_char(&mut r, '-');
        let d = fmt_u64(m);
        r.append(d.as_str());
        r
    } else {
        fmt_u64(n as u64)
    }
}

/// The lower-case hexadecimal digit for `d < 16`.
pub open spec fn hex_digit(d: nat) -> char {
    if d < 10 {
        ((d + 48) as u8) as char
    } else {
        ((d + 87) as u8) as char
    }
}

/// Each byte of `bytes` as two lower-case hexadecimal digits (`{:x}` on a digest).
pub open spec fn hex_lower(bytes: Seq<u8>) -> Seq<char>
    decreases bytes.len(),
{
    if bytes.len() == 0 {
        Seq::empty()
    } else {
        hex_lower(bytes.drop_last()).push(hex_digit((bytes.last() / 16) as nat)).push(
            hex_digit((bytes.last() % 16) as nat),
        )
    }
}

fn hex_digit_char(d: u8) -> (r: char)
    requires
        d < 16,
    ensures
        r == hex_digit(d as nat),
{
    if d < 10 {
        (d + 48) as char
    } else {
        (d + 87) as char
    }
}

/// Formats `bytes` as lower-case hexadecimal.
pub fn hex_string(bytes: &Vec<u8>) -> (r: String)
    ensures
        r@ == hex_lower(bytes@),
{
    let mut r = String::new();
    let mut i: usize = 0;
    while i < bytes.len()
        invariant
            i <= bytes@.len(),
            r@ == hex_lower(bytes@.take(i as int)),
        decreases bytes.len() - i,
    {
        let b = bytes[i];
        assert(bytes@.take(i + 1).drop_last() == bytes@.take(i as int));
        push_char(&mut r, hex_digit_char(b / 16));
        push_char(&mut r, hex_digit_char(b % 16));
        i += 1;
    }
    assert(bytes@.take(bytes@.len() as int) == bytes@);
    r
}


/// What `str::to_lowercase` returns for a string: its Unicode lower-case mapping.
pub uninterp spec fn lowercase(s: Seq<char>) -> Seq<char>;

/// Whether every character of `s` is ASCII.
pub open spec fn all_ascii(s: Seq<char>) -> bool {
    forall|i: int| 0 <= i < s.len() ==> (#[trigger] s[i] as u32) < 128
}

/// Lower-cases `s` by calling `str::to_lowercase`. Unicode case mapping takes
/// pages to state, so in general the result is given only by the name
/// [`lowercase`]. For ASCII text the documentation pins it down: the mapping is
/// the Unicode lower-case mapping, which on ASCII letters is the one
/// `to_ascii_lowercase` documents (`A`..`Z` to `a`..`z`, every other character
/// unchanged), character by character.
#[verifier::external_body]
pub(crate) fn to_lowercase(s: &str) -> (r: String)
    ensures
        r@ == lowercase(s@),
        all_ascii(s@) ==> r@ == s@.map_values(|c: char| ascii_lower(c)),
{
    s.to_lowercase()
}

/// What `String::from_utf8_lossy` returns for a byte sequence.
pub uninterp spec fn utf8_lossy(bytes: Seq<u8>) -> Seq<char>;

/// Decodes `bytes` by calling `String::from_utf8_lossy`: invalid sequences become
/// U+FFFD. Its documentation states that valid UTF-8 is decoded as it stands; that
/// is the one fact stated besides the name [`utf8_lossy`].
#[verifier::external_body]
pub(crate) fn decode_utf8_lossy(bytes: &[u8]) -> (r: String)
    ensures
        r@ == utf8_lossy(bytes@),
        valid_utf8(bytes@) ==> r@ == decode_utf8(bytes@),
{
    String::from_utf8_lossy(bytes).into_owned()
}

/// Dropping trailing whitespace character changes nothing once trimmed.
proof fn lemma_trim_drop_ws_last(s: Seq<char>)
    requires
        s.len() > 0,
        is_ws(s.last()),
    ensures
        trim(s) == trim(s.drop_last()),
    decreases s.len(),
{
    if is_ws(s[0]) {
        if s.len() == 1 {
            assert(s.drop_first() =~= Seq::<char>::empty());
            assert(s.drop_last() =~= Seq::<char>::empty());
            assert(trim_start(s) == trim_start(s.drop_first()));
            assert(trim_start(Seq::<char>::empty()) == Seq::<char>::empty());
            assert(trim_end(Seq::<char>::empty()) == Seq::<char>::empty());
        } else {
            let t = s.drop_first();
            assert(t.last() == s.last());
            lemma_trim_drop_ws_last(t);
            assert(s.drop_last()[0] == s[0]);
            assert(s.drop_last().drop_first() =~= t.drop_last());
            assert(trim_start(s) == trim_start(t));
            assert(trim_start(s.drop_last()) == trim_start(s.drop_last().drop_first()));
        }
    } else {
        assert(s.len() >= 2);
        assert(s.drop_last()[0] == s[0]);
        assert(trim_start(s) == s);
        assert(trim_start(s.drop_last()) == s.drop_last());
        assert(trim_end(s) == trim_end(s.drop_last()));
    }
}

/// Trimming ignores a carriage return at the end.
proof fn lemma_trim_strip_cr(e: Seq<char>)
    ensures
        trim(strip_cr(e)) == trim(e),
{
    if e.len() > 0 && e.last() == '\r' {
        assert(is_ws(e.last()));
        lemma_trim_drop_ws_last(e);
    }
}

proof fn lemma_normalized_strip_cr(s: Seq<Seq<char>>)
    ensures
        normalized(s.map_values(|e: Seq<char>| strip_cr(e))) == normalized(s),
    decreases s.len(),
{
    if s.len() > 0 {
        let m = s.map_values(|e: Seq<char>| strip_cr(e));
        assert(m.drop_last() =~= s.drop_last().map_values(|e: Seq<char>| strip_cr(e)));
        lemma_normalized_strip_cr(s.drop_last());
        lemma_trim_strip_cr(s.last());
        assert(m.last() == strip_cr(s.last()));
    }
}

proof fn lemma_line_state_append(t: Seq<char>, u: Seq<char>)
    requires
        !u.contains('\n'),
    ensures
        line_state(t + u) == (line_state(t).0, line_state(t).1 + u),
    decreases u.len(),
{
    if u.len() == 0 {
        assert(t + u =~= t);
        assert(line_state(t).1 + u =~= line_state(t).1);
    } else {
        let v = u.drop_last();
        assert(!v.contains('\n')) by {
            if v.contains('\n') {
                let k = choose|k: int| 0 <= k < v.len() && v[k] == '\n';
                assert(u[k] == '\n');
            }
        }
        lemma_line_state_append(t, v);
        assert((t + u).drop_last() =~= t + v);
        assert((t + u).last() == u.last());
        assert(u.last() != '\n') by {
            assert(u[u.len() - 1] == u.last());
        }
        assert(line_state(t).1 + v + seq![u.last()] =~= line_state(t).1 + u);
        assert((line_state(t).1 + v).push(u.last()) =~= line_state(t).1 + u);
    }
}

proof fn lemma_line_state_joined(x: Seq<Seq<char>>)
    requires
        x.len() > 0,
        forall|i: int| 0 <= i < x.len() ==> !(#[trigger] x[i]).contains('\n'),
    ensures
        line_state(join(x, "\n"@)) == (x.drop_last().map_values(|e: Seq<char>| strip_cr(e)), x.last()),
    decreases x.len(),
{
    reveal_strlit("\n");
    if x.len() == 1 {
        lemma_line_state_append(Seq::empty(), x[0]);
        assert(Seq::<char>::empty() + x[0] =~= x[0]);
        assert(Seq::<char>::empty() + x[0] =~= x[0]);
        assert(x.drop_last().map_values(|e: Seq<char>| strip_cr(e)) =~= Seq::<Seq<char>>::empty());
    } else {
        let p = x.drop_last();
        assert forall|i: int| 0 <= i < p.len() implies !(#[trigger] p[i]).contains('\n') by {
            assert(p[i] == x[i]);
        }
        lemma_line_state_joined(p);
        let j = join(p, "\n"@);
        let t = j + "\n"@;
        assert(t.drop_last() =~= j);
        assert(t.last() == '\n');
        assert(x[x.len() - 1] == x.last());
        lemma_line_state_append(t, x.last());
        assert(join(x, "\n"@) == t + x.last());
        assert(p.drop_last().map_values(|e: Seq<char>| strip_cr(e)).push(strip_cr(p.last()))
            =~= p.map_values(|e: Seq<char>| strip_cr(e)));
        assert(Seq::<char>::empty() + x.last() =~= x.last());
    }
}

/// Joining lines that hold no line break with `\n` and splitting the text into
/// lines again gives the same lines once each is trimmed and blank ones are
/// dropped.
pub proof fn lemma_normalized_lines_of_joined(x: Seq<Seq<char>>)
    requires
        forall|i: int| 0 <= i < x.len() ==> !(#[trigger] x[i]).contains('\n'),
    ensures
        normalized(lines(join(x, "\n"@))) == normalized(x),
{
    if x.len() > 0 {
        lemma_line_state_joined(x);
        let d = x.drop_last().map_values(|e: Seq<char>| strip_cr(e));
        lemma_normalized_strip_cr(x.drop_last());
        if x.last().len() > 0 {
            assert(lines(join(x, "\n"@)) == d.push(x.last()));
            assert(d.push(x.last()).drop_last() =~= d);
        } else {
            assert(trim(x.last()).len() == 0);
        }
    }
}

} // verus!
