//! Character-level building blocks: whitespace, splitting, trimming,
//! decimal numerals and string building.
use vstd::prelude::*;
use vstd::std_specs::iter::IteratorSpec;

verus! {

/// The characters with the Unicode `White_Space` property, which
/// `char::is_whitespace`, `str::trim` and `str::split_whitespace` go by.
pub open spec fn is_ws(c: char) -> bool {
    ||| ('\u{9}' <= c && c <= '\u{d}')
    ||| c == ' '
    ||| c == '\u{85}'
    ||| c == '\u{a0}'
    ||| c == '\u{1680}'
    ||| ('\u{2000}' <= c && c <= '\u{200a}')
    ||| c == '\u{2028}'
    ||| c == '\u{2029}'
    ||| c == '\u{202f}'
    ||| c == '\u{205f}'
    ||| c == '\u{3000}'
}

pub fn is_whitespace(c: char) -> (b: bool)
    ensures
        b == is_ws(c),
{
    ('\u{9}' <= c && c <= '\u{d}') || c == ' ' || c == '\u{85}' || c == '\u{a0}' || c
        == '\u{1680}' || ('\u{2000}' <= c && c <= '\u{200a}') || c == '\u{2028}' || c
        == '\u{2029}' || c == '\u{202f}' || c == '\u{205f}' || c == '\u{3000}'
}

/// The characters of `s`, in order.
pub fn chars_of(s: &str) -> (v: Vec<char>)
    ensures
        v@ == s@,
{
    let mut v: Vec<char> = Vec::new();
    let mut it = s.chars();
    let ghost all = s@;
    loop
        invariant
            it.remaining() == all.skip(v@.len() as int),
            v@ == all.take(v@.len() as int),
            v@.len() <= all.len(),
            it.obeys_prophetic_iter_laws(),
            all == s@,
        decreases all.len() - v@.len(),
    {
        match it.next() {
            Some(c) => {
                assert(all.skip(v@.len() as int).drop_first() =~= all.skip(v@.len() as int + 1));
                v.push(c);
                assert(v@ =~= all.take(v@.len() as int));
            },
            None => {
                assert(all.skip(v@.len() as int).len() == 0);
                assert(v@ =~= all);
                return v;
            },
        }
    }
}

/// `String::push`: appends one character to the string.
#[verifier::external_body]
pub(crate) fn push_char(s: &mut String, c: char)
    ensures
        final(s)@ == old(s)@.push(c),
{
    s.push(c);
}

/// A `String` holding exactly the characters of `v`.
pub fn string_of(v: &Vec<char>) -> (s: String)
    ensures
        s@ == v@,
{
    let mut s = String::new();
    for i in 0..v.len()
        invariant
            s@ == v@.take(i as int),
    {
        push_char(&mut s, v[i]);
        assert(s@ =~= v@.take(i as int + 1));
    }
    assert(v@.take(v@.len() as int) =~= v@);
    s
}

/// Appends the characters of `t` to `s`.
pub fn push_chars(s: &mut String, t: &Vec<char>)
    ensures
        final(s)@ == old(s)@ + t@,
{
    for i in 0..t.len()
        invariant
            s@ == old(s)@ + t@.take(i as int),
    {
        push_char(s, t[i]);
        assert(s@ =~= old(s)@ + t@.take(i as int + 1));
    }
    assert(t@.take(t@.len() as int) =~= t@);
}

/// Appends `t` to `s`.
pub fn push_str(s: &mut String, t: &str)
    ensures
        final(s)@ == old(s)@ + t@,
{
    let v = chars_of(t);
    push_chars(s, &v);
}

/// Whether two character sequences are equal.
pub fn chars_eq(a: &Vec<char>, b: &Vec<char>) -> (r: bool)
    ensures
        r == (a@ == b@),
{
    if a.len() != b.len() {
        return false;
    }
    for i in 0..a.len()
        invariant
            a@.len() == b@.len(),
            forall|j: int| 0 <= j < i ==> a@[j] == b@[j],
    {
        if a[i] != b[i] {
            return false;
        }
    }
    assert(a@ =~= b@);
    true
}

/// Whether the characters of `a` are those of `lit`.
pub fn chars_eq_str(a: &Vec<char>, lit: &str) -> (r: bool)
    ensures
        r == (a@ == lit@),
{
    let b = chars_of(lit);
    chars_eq(a, &b)
}

/// The characters of `v` from `lo` up to `hi`.
pub fn sub_chars(v: &Vec<char>, lo: usize, hi: usize) -> (r: Vec<char>)
    requires
        lo <= hi <= v@.len(),
    ensures
        r@ == v@.subrange(lo as int, hi as int),
{
    let mut r: Vec<char> = Vec::new();
    for i in lo..hi
        invariant
            lo <= hi <= v@.len(),
            r@ == v@.subrange(lo as int, i as int),
    {
        r.push(v[i]);
        assert(r@ =~= v@.subrange(lo as int, i as int + 1));
    }
    r
}

/// The views of a sequence of character vectors.
pub open spec fn views(v: Seq<Vec<char>>) -> Seq<Seq<char>> {
    v.map_values(|w: Vec<char>| w@)
}

/// The text of each string.
pub open spec fn views_of_strings(v: Seq<String>) -> Seq<Seq<char>> {
    v.map_values(|s: String| s@)
}

/// The text of an optional string.
pub open spec fn opt_view(o: Option<String>) -> Option<Seq<char>> {
    match o {
        Some(s) => Some(s@),
        None => None,
    }
}

/// The pieces of `s` between the characters for which `sep` holds, empty
/// pieces included; there is always at least one piece. This is what
/// `str::split` gives for a character pattern.
pub open spec fn split_by(s: Seq<char>, sep: spec_fn(char) -> bool) -> Seq<Seq<char>>
    decreases s.len(),
{
    if s.len() == 0 {
        seq![Seq::<char>::empty()]
    } else {
        let init = split_by(s.drop_last(), sep);
        if sep(s.last()) {
            init.push(Seq::<char>::empty())
        } else {
            init.update(init.len() - 1, init.last().push(s.last()))
        }
    }
}

pub proof fn lemma_split_by_nonempty(s: Seq<char>, sep: spec_fn(char) -> bool)
    ensures
        split_by(s, sep).len() >= 1,
    decreases s.len(),
{
    if s.len() > 0 {
        lemma_split_by_nonempty(s.drop_last(), sep);
    }
}

/// The separator predicate of a single character.
pub open spec fn char_is(c: char) -> spec_fn(char) -> bool {
    |x: char| x == c
}

/// The separator predicate of whitespace.
pub open spec fn ws_sep() -> spec_fn(char) -> bool {
    |x: char| is_ws(x)
}

/// `str::split(c)` on a character `c`.
pub open spec fn split_char(s: Seq<char>, c: char) -> Seq<Seq<char>> {
    split_by(s, char_is(c))
}

/// The pieces of `p` that are not empty, in order.
pub open spec fn nonempty(p: Seq<Seq<char>>) -> Seq<Seq<char>>
    decreases p.len(),
{
    if p.len() == 0 {
        seq![]
    } else {
        let r = nonempty(p.drop_last());
        if p.last().len() > 0 {
            r.push(p.last())
        } else {
            r
        }
    }
}

/// `str::split_whitespace`: the maximal runs of non-whitespace characters.
pub open spec fn words(s: Seq<char>) -> Seq<Seq<char>> {
    nonempty(split_by(s, ws_sep()))
}

/// Splits `v` at every occurrence of `c`.
pub fn split_at_char(v: &Vec<char>, c: char) -> (r: Vec<Vec<char>>)
    ensures
        views(r@) == split_char(v@, c),
        r@.len() >= 1,
{
    let mut parts: Vec<Vec<char>> = Vec::new();
    let mut cur: Vec<char> = Vec::new();
    for i in 0..v.len()
        invariant
            views(parts@).push(cur@) == split_char(v@.take(i as int), c),
    {
        let ghost before = v@.take(i as int);
        assert(v@.take(i as int + 1).drop_last() =~= before);
        proof {
            lemma_split_by_nonempty(before, char_is(c));
        }
        if v[i] == c {
            parts.push(cur);
            cur = Vec::new();
            assert(views(parts@).push(cur@) =~= split_char(v@.take(i as int + 1), c));
        } else {
            cur.push(v[i]);
            assert(views(parts@).push(cur@) =~= split_char(v@.take(i as int + 1), c));
        }
    }
    assert(v@.take(v@.len() as int) =~= v@);
    parts.push(cur);
    assert(views(parts@) =~= split_char(v@, c));
    parts
}

/// Splits `v` into its whitespace-separated words.
pub fn split_words(v: &Vec<char>) -> (r: Vec<Vec<char>>)
    ensures
        views(r@) == words(v@),
{
    let mut done: Vec<Vec<char>> = Vec::new();
    let mut cur: Vec<char> = Vec::new();
    let ghost mut pieces: Seq<Seq<char>> = seq![];
    for i in 0..v.len()
        invariant
            pieces.push(cur@) == split_by(v@.take(i as int), ws_sep()),
            views(done@) == nonempty(pieces),
    {
        let ghost before = v@.take(i as int);
        assert(v@.take(i as int + 1).drop_last() =~= before);
        proof {
            lemma_split_by_nonempty(before, ws_sep());
        }
        if is_whitespace(v[i]) {
            let ghost old_cur = cur@;
            proof {
                assert(pieces.push(old_cur).drop_last() =~= pieces);
            }
            if cur.len() > 0 {
                done.push(cur);
                assert(views(done@) =~= nonempty(pieces.push(old_cur)));
            }
            proof {
                pieces = pieces.push(old_cur);
            }
            cur = Vec::new();
            assert(pieces.push(cur@) =~= split_by(v@.take(i as int + 1), ws_sep()));
        } else {
            cur.push(v[i]);
            assert(pieces.push(cur@) =~= split_by(v@.take(i as int + 1), ws_sep()));
        }
    }
    assert(v@.take(v@.len() as int) =~= v@);
    let ghost last = cur@;
    assert(pieces.push(last).drop_last() =~= pieces);
    if cur.len() > 0 {
        done.push(cur);
        assert(views(done@) =~= nonempty(pieces.push(last)));
    }
    done
}

/// `str::trim_start`: drops the leading whitespace.
pub open spec fn trim_start(s: Seq<char>) -> Seq<char>
    decreases s.len(),
{
    if s.len() > 0 && is_ws(s[0]) {
        trim_start(s.drop_first())
    } else {
        s
    }
}

/// `str::trim_end`: drops the trailing whitespace.
pub open spec fn trim_end(s: Seq<char>) -> Seq<char>
    decreases s.len(),
{
    if s.len() > 0 && is_ws(s.last()) {
        trim_end(s.drop_last())
    } else {
        s
    }
}

/// `str::trim`: drops leading and trailing whitespace.
pub open spec fn trim(s: Seq<char>) -> Seq<char> {
    trim_end(trim_start(s))
}

proof fn lemma_trim_start_at(s: Seq<char>, a: int)
    requires
        0 <= a <= s.len(),
        forall|j: int| 0 <= j < a ==> is_ws(#[trigger] s[j]),
        a == s.len() || !is_ws(s[a]),
    ensures
        trim_start(s) == s.skip(a),
    decreases a,
{
    if a == 0 {
        assert(s.skip(0) =~= s);
    } else {
        let t = s.drop_first();
        assert forall|j: int| 0 <= j < a - 1 implies is_ws(#[trigger] t[j]) by {
            assert(t[j] == s[j + 1]);
        }
        lemma_trim_start_at(t, a - 1);
        assert(t.skip(a - 1) =~= s.skip(a));
    }
}

proof fn lemma_trim_end_at(s: Seq<char>, b: int)
    requires
        0 <= b <= s.len(),
        forall|j: int| b <= j < s.len() ==> is_ws(#[trigger] s[j]),
        b == 0 || !is_ws(s[b - 1]),
    ensures
        trim_end(s) == s.take(b),
    decreases s.len() - b,
{
    if b == s.len() {
        assert(s.take(b) =~= s);
    } else {
        let t = s.drop_last();
        assert forall|j: int| b <= j < t.len() implies is_ws(#[trigger] t[j]) by {
            assert(t[j] == s[j]);
        }
        lemma_trim_end_at(t, b);
        assert(t.take(b) =~= s.take(b));
    }
}

/// `v` without its leading and trailing whitespace.
pub fn trim_chars(v: &Vec<char>) -> (r: Vec<char>)
    ensures
        r@ == trim(v@),
{
    let n = v.len();
    let mut a: usize = 0;
    while a < n && is_whitespace(v[a])
        invariant
            a <= n == v@.len(),
            forall|j: int| 0 <= j < a ==> is_ws(#[trigger] v@[j]),
        decreases n - a,
    {
        a = a + 1;
    }
    proof {
        lemma_trim_start_at(v@, a as int);
    }
    let mut b: usize = n;
    while b > a && is_whitespace(v[b - 1])
        invariant
            a <= b <= n == v@.len(),
            forall|j: int| b <= j < n ==> is_ws(#[trigger] v@[j]),
        decreases b,
    {
        b = b - 1;
    }
    let ghost t = v@.skip(a as int);
    proof {
        assert forall|j: int| b - a <= j < t.len() implies is_ws(#[trigger] t[j]) by {
            assert(t[j] == v@[a + j]);
        }
        if b > a {
            assert(t[b - a - 1] == v@[b - 1]);
        }
        lemma_trim_end_at(t, b - a);
        assert(t.take(b - a) =~= v@.subrange(a as int, b as int));
    }
    sub_chars(v, a, b)
}

/// Whether `c` is an ASCII decimal digit.
pub open spec fn is_digit(c: char) -> bool {
    '0' <= c && c <= '9'
}

/// Whether every character of `s` is a decimal digit.
pub open spec fn all_digits(s: Seq<char>) -> bool {
    forall|i: int| 0 <= i < s.len() ==> is_digit(#[trigger] s[i])
}

/// The value of the decimal digits `s`.
pub open spec fn digits_value(s: Seq<char>) -> nat
    decreases s.len(),
{
    if s.len() == 0 {
        0
    } else {
        digits_value(s.drop_last()) * 10 + ((s.last() as int - '0' as int) as nat)
    }
}

/// How Rust's integer parsing (`str::parse` on an integer type) reads `s`
/// before the range check: an optional `+` (or `-` when `signed`), then one
/// or more decimal digits and nothing else.
pub open spec fn numeral_value(s: Seq<char>, signed: bool) -> Option<int> {
    let neg = signed && s.len() > 0 && s[0] == '-';
    let body = if s.len() > 0 && (s[0] == '+' || neg) {
        s.drop_first()
    } else {
        s
    };
    if body.len() > 0 && all_digits(body) {
        Some(if neg {
            -(digits_value(body) as int)
        } else {
            digits_value(body) as int
        })
    } else {
        None
    }
}

/// `str::parse::<usize>`.
pub open spec fn parse_usize_spec(s: Seq<char>) -> Option<usize> {
    match numeral_value(s, false) {
        Some(v) => if v <= usize::MAX {
            Some(v as usize)
        } else {
            None
        },
        None => None,
    }
}

/// `str::parse::<u32>`.
pub open spec fn parse_u32_spec(s: Seq<char>) -> Option<u32> {
    match numeral_value(s, false) {
        Some(v) => if v <= u32::MAX {
            Some(v as u32)
        } else {
            None
        },
        None => None,
    }
}

/// `str::parse::<i64>`.
pub open spec fn parse_i64_spec(s: Seq<char>) -> Option<i64> {
    match numeral_value(s, true) {
        Some(v) => if i64::MIN <= v <= i64::MAX {
            Some(v as i64)
        } else {
            None
        },
        None => None,
    }
}

/// `str::parse::<i32>`.
pub open spec fn parse_i32_spec(s: Seq<char>) -> Option<i32> {
    match numeral_value(s, true) {
        Some(v) => if i32::MIN <= v <= i32::MAX {
            Some(v as i32)
        } else {
            None
        },
        None => None,
    }
}

proof fn lemma_digits_value_grows(s: Seq<char>, i: int)
    requires
        0 <= i <= s.len(),
        all_digits(s),
    ensures
        digits_value(s.take(i)) <= digits_value(s),
    decreases s.len() - i,
{
    if i < s.len() {
        lemma_digits_value_grows(s, i + 1);
        assert(s.take(i + 1).drop_last() =~= s.take(i));
        assert(is_digit(s[i]));
    } else {
        assert(s.take(i) =~= s);
    }
}

/// The value of the digits of `v` from `start` on, when they are one or
/// more decimal digits and nothing else and the value is at most `bound`.
fn digits_at_most(v: &Vec<char>, start: usize, bound: u64) -> (r: Option<u64>)
    requires
        start <= v@.len(),
    ensures
        ({
            let body = v@.skip(start as int);
            match r {
                Some(x) => body.len() > 0 && all_digits(body) && x == digits_value(body)
                    && x <= bound,
                None => !(body.len() > 0 && all_digits(body) && digits_value(body) <= bound),
            }
        }),
{
    let n = v.len();
    let ghost body = v@.skip(start as int);
    if start == n {
        return None;
    }
    let mut i: usize = start;
    while i < n
        invariant
            start <= i <= n == v@.len(),
            body == v@.skip(start as int),
            all_digits(body.take(i - start)),
        decreases n - i,
    {
        if !('0' <= v[i] && v[i] <= '9') {
            assert(body[i - start] == v@[i as int]);
            return None;
        }
        assert(body.take(i - start + 1) =~= body.take(i - start).push(v@[i as int]));
        i = i + 1;
    }
    assert(body.take(n - start) =~= body);
    let mut x: u64 = 0;
    let mut k: usize = start;
    while k < n
        invariant
            start <= k <= n == v@.len(),
            body == v@.skip(start as int),
            all_digits(body),
            x == digits_value(body.take(k - start)),
            x <= bound,
        decreases n - k,
    {
        assert(body[k - start] == v@[k as int]);
        assert(is_digit(body[k - start]));
        let d = (v[k] as u32 - '0' as u32) as u64;
        assert(body.take(k - start + 1).drop_last() =~= body.take(k - start));
        if x > bound / 10 || (x == bound / 10 && d > bound % 10) {
            proof {
                lemma_digits_value_grows(body, k - start + 1);
            }
            return None;
        }
        x = x * 10 + d;
        k = k + 1;
    }
    assert(body.take(n - start) =~= body);
    Some(x)
}

/// `str::parse::<usize>` on the characters of `v`.
pub fn parse_usize(v: &Vec<char>) -> (r: Option<usize>)
    ensures
        r == parse_usize_spec(v@),
{
    let start: usize = if v.len() > 0 && v[0] == '+' {
        1
    } else {
        0
    };
    assert(v@.skip(start as int) =~= (if start == 1 { v@.drop_first() } else { v@ }));
    match digits_at_most(v, start, usize::MAX as u64) {
        Some(x) => Some(x as usize),
        None => None,
    }
}

/// `str::parse::<u32>` on the characters of `v`.
pub fn parse_u32(v: &Vec<char>) -> (r: Option<u32>)
    ensures
        r == parse_u32_spec(v@),
{
    let start: usize = if v.len() > 0 && v[0] == '+' {
        1
    } else {
        0
    };
    assert(v@.skip(start as int) =~= (if start == 1 { v@.drop_first() } else { v@ }));
    match digits_at_most(v, start, u32::MAX as u64) {
        Some(x) => Some(x as u32),
        None => None,
    }
}

/// `str::parse::<i64>` on the characters of `v`.
pub fn parse_i64(v: &Vec<char>) -> (r: Option<i64>)
    ensures
        r == parse_i64_spec(v@),
{
    let neg = v.len() > 0 && v[0] == '-';
    let start: usize = if v.len() > 0 && (v[0] == '+' || neg) {
        1
    } else {
        0
    };
    assert(v@.skip(start as int) =~= (if start == 1 { v@.drop_first() } else { v@ }));
    let bound: u64 = if neg {
        0x8000_0000_0000_0000
    } else {
        0x7fff_ffff_ffff_ffff
    };
    match digits_at_most(v, start, bound) {
        Some(x) => {
            if neg {
                if x == 0x8000_0000_0000_0000 {
                    Some(i64::MIN)
                } else {
                    Some(-(x as i64))
                }
            } else {
                Some(x as i64)
            }
        },
        None => None,
    }
}

/// `str::parse::<i32>` on the characters of `v`.
pub fn parse_i32(v: &Vec<char>) -> (r: Option<i32>)
    ensures
        r == parse_i32_spec(v@),
{
    let neg = v.len() > 0 && v[0] == '-';
    let start: usize = if v.len() > 0 && (v[0] == '+' || neg) {
        1
    } else {
        0
    };
    assert(v@.skip(start as int) =~= (if start == 1 { v@.drop_first() } else { v@ }));
    let bound: u64 = if neg {
        0x8000_0000
    } else {
        0x7fff_ffff
    };
    match digits_at_most(v, start, bound) {
        Some(x) => {
            if neg {
                if x == 0x8000_0000 {
                    Some(i32::MIN)
                } else {
                    Some(-(x as i32))
                }
            } else {
                Some(x as i32)
            }
        },
        None => None,
    }
}

/// What `str::to_lowercase` gives for `s` (lowercase by the Unicode
/// `Lowercase` property).
pub uninterp spec fn lowercase(s: Seq<char>) -> Seq<char>;

/// `str::to_lowercase`: the lowercase form of `s`, as the name
/// `lowercase` stands for; nothing more is stated of it.
#[verifier::external_body]
pub(crate) fn to_lowercase(s: &str) -> (r: String)
    ensures
        r@ == lowercase(s@),
{
    s.to_lowercase()
}

/// Whether `s` begins with `p`.
pub open spec fn starts_with(s: Seq<char>, p: Seq<char>) -> bool {
    p.len() <= s.len() && s.take(p.len() as int) == p
}

/// `str::starts_with` on the characters of `v`.
pub fn starts_with_str(v: &Vec<char>, p: &str) -> (r: bool)
    ensures
        r == starts_with(v@, p@),
{
    let pc = chars_of(p);
    if pc.len() > v.len() {
        return false;
    }
    for i in 0..pc.len()
        invariant
            pc@ == p@,
            pc@.len() <= v@.len(),
            forall|j: int| 0 <= j < i ==> v@[j] == pc@[j],
    {
        if v[i] != pc[i] {
            assert(v@.take(pc@.len() as int)[i as int] != pc@[i as int]);
            return false;
        }
    }
    assert(v@.take(pc@.len() as int) =~= pc@);
    true
}

/// The decimal digit of `d` (below 10).
pub open spec fn digit_char(d: nat) -> char {
    (48 + d) as char
}

/// The decimal numeral of `n`, without leading zeros.
pub open spec fn decimal(n: nat) -> Seq<char>
    decreases n,
{
    if n < 10 {
        seq![digit_char(n)]
    } else {
        decimal(n / 10).push(digit_char(n % 10))
    }
}

/// How `Display` writes the integer `v`: a `-` before negative numbers,
/// then the decimal numeral of its magnitude.
pub open spec fn int_text(v: int) -> Seq<char> {
    if v < 0 {
        seq!['-'] + decimal((-v) as nat)
    } else {
        decimal(v as nat)
    }
}

/// Appends the decimal numeral of `n` to `s`.
pub fn push_decimal(s: &mut String, n: u64)
    ensures
        final(s)@ == old(s)@ + decimal(n as nat),
    decreases n,
{
    if n >= 10 {
        push_decimal(s, n / 10);
    }
    let d = (n % 10) as u8;
    let c = (48u8 + d) as char;
    assert(c == digit_char((n % 10) as nat));
    push_char(s, c);
    if n < 10 {
        assert(s@ =~= old(s)@ + decimal(n as nat));
    } else {
        assert(s@ =~= old(s)@ + decimal(n as nat));
    }
}

/// Appends `v` as `Display` writes it.
pub fn push_int(s: &mut String, v: i64)
    ensures
        final(s)@ == old(s)@ + int_text(v as int),
{
    if v < 0 {
        push_char(s, '-');
        let m: u64 = if v == i64::MIN {
            0x8000_0000_0000_0000
        } else {
            (-v) as u64
        };
        push_decimal(s, m);
        assert(s@ =~= old(s)@ + int_text(v as int));
    } else {
        push_decimal(s, v as u64);
    }
}

/// `v.to_string()` for an `i64`.
pub fn i64_to_string(v: i64) -> (s: String)
    ensures
        s@ == int_text(v as int),
{
    let mut s = String::new();
    push_int(&mut s, v);
    assert(s@ =~= int_text(v as int));
    s
}

/// `v.to_string()` for a `usize`.
pub fn usize_to_string(v: usize) -> (s: String)
    ensures
        s@ == int_text(v as int),
{
    let mut s = String::new();
    push_decimal(&mut s, v as u64);
    assert(s@ =~= int_text(v as int));
    s
}

/// Splitting text joined at a separator gives the pieces of each part.
pub proof fn lemma_split_concat(a: Seq<char>, x: char, b: Seq<char>, sep: spec_fn(char) -> bool)
    requires
        sep(x),
    ensures
        split_by(a + seq![x] + b, sep) == split_by(a, sep) + split_by(b, sep),
    decreases b.len(),
{
    let s = a + seq![x] + b;
    if b.len() == 0 {
        assert(s =~= a.push(x));
        assert(s.drop_last() =~= a);
        assert(split_by(a, sep).push(Seq::<char>::empty()) =~= split_by(a, sep) + split_by(b, sep));
    } else {
        let b0 = b.drop_last();
        lemma_split_concat(a, x, b0, sep);
        assert(s.drop_last() =~= a + seq![x] + b0);
        assert(s.last() == b.last());
        lemma_split_by_nonempty(b0, sep);
        let pa = split_by(a, sep);
        let pb = split_by(b0, sep);
        if sep(b.last()) {
            assert((pa + pb).push(Seq::<char>::empty()) =~= pa + pb.push(Seq::<char>::empty()));
        } else {
            assert((pa + pb).update((pa + pb).len() - 1, (pa + pb).last().push(b.last())) =~= pa
                + pb.update(pb.len() - 1, pb.last().push(b.last())));
        }
    }
}

/// Text without separators is one piece.
pub proof fn lemma_split_none(s: Seq<char>, sep: spec_fn(char) -> bool)
    requires
        forall|i: int| 0 <= i < s.len() ==> !sep(#[trigger] s[i]),
    ensures
        split_by(s, sep) == seq![s],
    decreases s.len(),
{
    if s.len() > 0 {
        let w = s.drop_last();
        assert forall|i: int| 0 <= i < w.len() implies !sep(#[trigger] w[i]) by {
            assert(w[i] == s[i]);
        }
        lemma_split_none(w, sep);
        assert(!sep(s[s.len() - 1]));
        assert(w.push(s.last()) =~= s);
        assert(seq![w].update(0, w.push(s.last())) =~= seq![s]);
    } else {
        assert(s =~= Seq::<char>::empty());
    }
}

proof fn lemma_digit_char(m: nat)
    requires
        m < 10,
    ensures
        digit_char(m) as int == 48 + m,
        is_digit(digit_char(m)),
{
    assert(digit_char(m) as int == 48 + m);
}

proof fn lemma_decimal_digits(n: nat)
    ensures
        decimal(n).len() > 0,
        all_digits(decimal(n)),
        digits_value(decimal(n)) == n,
        decimal(n)[0] != '+' && decimal(n)[0] != '-',
    decreases n,
{
    lemma_digit_char(n % 10);
    assert(n == (n / 10) * 10 + n % 10) by (nonlinear_arith);
    if n < 10 {
        assert(n % 10 == n);
        let d = decimal(n);
        assert(d.drop_last() =~= Seq::<char>::empty());
        assert(d.last() == digit_char(n));
        assert(digits_value(d.drop_last()) == 0);
        assert(digits_value(d) == n);
    }
    if n >= 10 {
        lemma_decimal_digits(n / 10);
        let d = decimal(n);
        let p = decimal(n / 10);
        assert(d.drop_last() =~= p);
        assert(d.last() == digit_char(n % 10));
        assert(digits_value(d) == digits_value(p) * 10 + (n % 10));
        assert(digits_value(p) == n / 10);
        assert(digits_value(d) == n);
        assert forall|i: int| 0 <= i < d.len() implies is_digit(#[trigger] d[i]) by {
            if i < p.len() {
                assert(d[i] == p[i]);
            }
        }
        assert(d[0] == p[0]);
    }
}

/// A number written out reads back as itself.
pub proof fn lemma_int_text_reads_back(v: int, signed: bool)
    requires
        signed || v >= 0,
    ensures
        numeral_value(int_text(v), signed) == Some(v),
{
    if v < 0 {
        lemma_decimal_digits((-v) as nat);
        let t = int_text(v);
        assert(t.drop_first() =~= decimal((-v) as nat));
    } else {
        lemma_decimal_digits(v as nat);
    }
}

/// The characters of a number written out are neither whitespace nor `c`
/// when `c` is no digit and no `-`.
pub proof fn lemma_int_text_chars(v: int)
    ensures
        forall|i: int|
            0 <= i < int_text(v).len() ==> is_digit(#[trigger] int_text(v)[i]) || int_text(v)[i]
                == '-',
        int_text(v).len() > 0,
{
    if v < 0 {
        lemma_decimal_digits((-v) as nat);
        let t = int_text(v);
        let d = decimal((-v) as nat);
        assert forall|i: int| 0 <= i < t.len() implies is_digit(#[trigger] t[i]) || t[i] == '-' by {
            if i > 0 {
                assert(t[i] == d[i - 1]);
            }
        }
    } else {
        lemma_decimal_digits(v as nat);
    }
}

} // verus!
