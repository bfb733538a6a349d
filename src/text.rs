use vstd::prelude::*;
use vstd::string::is_ascii;

verus! {

/// The bytes of an ASCII text.
pub open spec fn ascii(s: Seq<char>) -> Seq<u8> {
    Seq::new(s.len(), |i: int| s[i] as u8)
}

/// Appends the bytes of an ASCII text.
pub fn put(out: &mut Vec<u8>, s: &str)
    requires
        is_ascii(s),
    ensures
        final(out)@ == old(out)@ + ascii(s@),
{
    proof {
        broadcast use vstd::string::is_ascii_spec_bytes;
    }
    let b = s.as_bytes();
    let ghost start = out@;
    let mut i: usize = 0;
    while i < b.len()
        invariant
            b@ == ascii(s@),
            i <= b@.len(),
            out@ == start + b@.subrange(0, i as int),
        decreases b@.len() - i,
    {
        out.push(b[i]);
        i += 1;
        assert(out@ =~= start + b@.subrange(0, i as int));
    }
    assert(b@.subrange(0, i as int) =~= b@);
}

/// Whether `s[lo..hi]` holds exactly the bytes of an ASCII text.
pub fn range_is(s: &[u8], lo: usize, hi: usize, lit: &str) -> (r: bool)
    requires
        lo <= hi <= s@.len(),
        is_ascii(lit),
    ensures
        r == (s@.subrange(lo as int, hi as int) == ascii(lit@)),
{
    proof {
        broadcast use vstd::string::is_ascii_spec_bytes;
    }
    let b = lit.as_bytes();
    if hi - lo != b.len() {
        assert(s@.subrange(lo as int, hi as int).len() != ascii(lit@).len());
        return false;
    }
    let mut k: usize = 0;
    while k < b.len()
        invariant
            b@ == ascii(lit@),
            hi - lo == b@.len(),
            lo <= hi <= s@.len(),
            k <= b@.len(),
            forall|j: int| 0 <= j < k ==> s@[lo + j] == b@[j],
        decreases b@.len() - k,
    {
        if s[lo + k] != b[k] {
            assert(s@.subrange(lo as int, hi as int)[k as int] != ascii(lit@)[k as int]);
            return false;
        }
        k += 1;
    }
    assert(s@.subrange(lo as int, hi as int) =~= ascii(lit@));
    true
}

pub const SLASH: u8 = 47;

pub const NEWLINE: u8 = 10;

pub const COLON: u8 = 58;

pub const PLUS: u8 = 43;

/// Whitespace as `char::is_whitespace` has it within ASCII: tab, line feed,
/// vertical tab, form feed, carriage return and space.
pub open spec fn is_ws(b: u8) -> bool {
    b == 32 || (9 <= b && b <= 13)
}

/// The first index at or after `i` that holds no whitespace, or the length.
pub open spec fn skip_ws(s: Seq<u8>, i: int) -> int
    decreases s.len() - i,
{
    if i >= s.len() {
        s.len() as int
    } else if is_ws(s[i]) {
        skip_ws(s, i + 1)
    } else {
        i
    }
}

/// The first index at or after `i` that holds whitespace, or the length.
pub open spec fn token_end(s: Seq<u8>, i: int) -> int
    decreases s.len() - i,
{
    if i >= s.len() {
        s.len() as int
    } else if is_ws(s[i]) {
        i
    } else {
        token_end(s, i + 1)
    }
}

/// The first index at or after `i` that holds `b`, or the length.
pub open spec fn find_byte(s: Seq<u8>, b: u8, i: int) -> int
    decreases s.len() - i,
{
    if i >= s.len() {
        s.len() as int
    } else if s[i] == b {
        i
    } else {
        find_byte(s, b, i + 1)
    }
}

/// The end of the line that starts at `i`: just past its line feed, or the
/// length where no line feed follows.
pub open spec fn line_end(s: Seq<u8>, i: int) -> int
    decreases s.len() - i,
{
    if i >= s.len() {
        s.len() as int
    } else if s[i] == NEWLINE {
        i + 1
    } else {
        line_end(s, i + 1)
    }
}

/// The end of `s[lo..j]` once trailing whitespace is dropped.
pub open spec fn trim_back(s: Seq<u8>, lo: int, j: int) -> int
    decreases j - lo,
{
    if j <= lo {
        lo
    } else if is_ws(s[j - 1]) {
        trim_back(s, lo, j - 1)
    } else {
        j
    }
}

/// `s` without leading and trailing whitespace.
pub open spec fn trim(s: Seq<u8>) -> Seq<u8> {
    let lo = skip_ws(s, 0);
    s.subrange(lo, trim_back(s, lo, s.len() as int))
}

/// The pieces of `s[start..]` between slashes, scanning from `i`; no slash
/// stands in `s[start..i]`.
pub open spec fn split_from(s: Seq<u8>, start: int, i: int) -> Seq<Seq<u8>>
    decreases s.len() - i,
{
    if i >= s.len() {
        seq![s.subrange(start, s.len() as int)]
    } else if s[i] == SLASH {
        seq![s.subrange(start, i)] + split_from(s, i + 1, i + 1)
    } else {
        split_from(s, start, i + 1)
    }
}

/// The pieces of `s` between slashes, empty pieces included.
pub open spec fn split(s: Seq<u8>) -> Seq<Seq<u8>> {
    split_from(s, 0, 0)
}

/// The pieces put back together with a slash between each two.
pub open spec fn join(segs: Seq<Seq<u8>>) -> Seq<u8>
    decreases segs.len(),
{
    if segs.len() == 0 {
        Seq::empty()
    } else if segs.len() == 1 {
        segs[0]
    } else {
        segs[0] + seq![SLASH] + join(segs.drop_first())
    }
}

pub open spec fn views(v: Seq<Vec<u8>>) -> Seq<Seq<u8>> {
    v.map_values(|x: Vec<u8>| x@)
}

/// The decimal digits of `n`, without leading zeros.
pub open spec fn decimal(n: nat) -> Seq<u8>
    decreases n,
{
    if n < 10 {
        seq![(48 + n) as u8]
    } else {
        decimal(n / 10) + seq![(48 + n % 10) as u8]
    }
}

pub open spec fn is_digit(b: u8) -> bool {
    48 <= b && b <= 57
}

pub open spec fn all_digits(s: Seq<u8>) -> bool {
    forall|i: int| 0 <= i < s.len() ==> is_digit(#[trigger] s[i])
}

/// The number that a sequence of decimal digits writes.
pub open spec fn digits_value(s: Seq<u8>) -> nat
    decreases s.len(),
{
    if s.len() == 0 {
        0
    } else {
        digits_value(s.drop_last()) * 10 + (s.last() - 48) as nat
    }
}

/// A base-ten unsigned number as `u64::from_str_radix(_, 10)` reads it: an
/// optional `+`, then at least one digit, and a value that fits.
pub open spec fn parse_u64(s: Seq<u8>) -> Option<u64> {
    let d = if s.len() > 0 && s[0] == PLUS {
        s.drop_first()
    } else {
        s
    };
    if d.len() > 0 && all_digits(d) && digits_value(d) <= u64::MAX {
        Some(digits_value(d) as u64)
    } else {
        None
    }
}

pub fn skip_ws_from(s: &[u8], i: usize) -> (r: usize)
    requires
        i <= s@.len(),
    ensures
        r == skip_ws(s@, i as int),
        i <= r <= s@.len(),
{
    let mut j = i;
    while j < s.len() && (s[j] == 32 || (9 <= s[j] && s[j] <= 13))
        invariant
            i <= j <= s@.len(),
            skip_ws(s@, j as int) == skip_ws(s@, i as int),
        decreases s@.len() - j,
    {
        j += 1;
    }
    j
}

pub fn token_end_from(s: &[u8], i: usize) -> (r: usize)
    requires
        i <= s@.len(),
    ensures
        r == token_end(s@, i as int),
        i <= r <= s@.len(),
{
    let mut j = i;
    while j < s.len() && !(s[j] == 32 || (9 <= s[j] && s[j] <= 13))
        invariant
            i <= j <= s@.len(),
            token_end(s@, j as int) == token_end(s@, i as int),
        decreases s@.len() - j,
    {
        j += 1;
    }
    j
}

pub fn find_byte_from(s: &[u8], b: u8, i: usize) -> (r: usize)
    requires
        i <= s@.len(),
    ensures
        r == find_byte(s@, b, i as int),
        i <= r <= s@.len(),
        r < s@.len() ==> s@[r as int] == b,
{
    let mut j = i;
    while j < s.len() && s[j] != b
        invariant
            i <= j <= s@.len(),
            find_byte(s@, b, j as int) == find_byte(s@, b, i as int),
        decreases s@.len() - j,
    {
        j += 1;
    }
    j
}

pub fn line_end_from(s: &[u8], i: usize) -> (r: usize)
    requires
        i <= s@.len(),
    ensures
        r == line_end(s@, i as int),
        i <= r <= s@.len(),
        i < s@.len() ==> i < r,
{
    let mut j = i;
    while j < s.len() && s[j] != NEWLINE
        invariant
            i <= j <= s@.len(),
            line_end(s@, j as int) == line_end(s@, i as int),
        decreases s@.len() - j,
    {
        j += 1;
    }
    if j < s.len() {
        j + 1
    } else {
        j
    }
}

/// A copy of `s[lo..hi]`.
pub fn copy_range(s: &[u8], lo: usize, hi: usize) -> (r: Vec<u8>)
    requires
        lo <= hi <= s@.len(),
    ensures
        r@ == s@.subrange(lo as int, hi as int),
{
    let mut r: Vec<u8> = Vec::new();
    let mut j = lo;
    while j < hi
        invariant
            lo <= j <= hi <= s@.len(),
            r@ == s@.subrange(lo as int, j as int),
        decreases hi - j,
    {
        r.push(s[j]);
        j += 1;
        assert(r@ =~= s@.subrange(lo as int, j as int));
    }
    r
}

/// `s[lo..hi]` without leading and trailing whitespace.
pub fn trim_range(s: &[u8], lo: usize, hi: usize) -> (r: Vec<u8>)
    requires
        lo <= hi <= s@.len(),
    ensures
        r@ == trim(s@.subrange(lo as int, hi as int)),
{
    let ghost t = s@.subrange(lo as int, hi as int);
    let mut a = lo;
    while a < hi && (s[a] == 32 || (9 <= s[a] && s[a] <= 13))
        invariant
            lo <= a <= hi <= s@.len(),
            t == s@.subrange(lo as int, hi as int),
            skip_ws(t, (a - lo) as int) == skip_ws(t, 0),
        decreases hi - a,
    {
        assert(t[a - lo] == s@[a as int]);
        a += 1;
    }
    assert(a < hi ==> t[a - lo] == s@[a as int]);
    let mut b = hi;
    while b > a && (s[b - 1] == 32 || (9 <= s[b - 1] && s[b - 1] <= 13))
        invariant
            lo <= a <= b <= hi <= s@.len(),
            t == s@.subrange(lo as int, hi as int),
            a - lo == skip_ws(t, 0),
            trim_back(t, (a - lo) as int, (b - lo) as int) == trim_back(t, (a - lo) as int, t.len() as int),
        decreases b - a,
    {
        assert(t[b - 1 - lo] == s@[b - 1]);
        b -= 1;
    }
    assert(b > a ==> t[b - 1 - lo] == s@[b - 1]);
    let r = copy_range(s, a, b);
    assert(r@ =~= trim(t));
    r
}

/// Splits `s` at every slash, as `str::split("/")` does.
pub fn split_path(s: &[u8]) -> (r: Vec<Vec<u8>>)
    ensures
        views(r@) == split(s@),
{
    let mut r: Vec<Vec<u8>> = Vec::new();
    let mut start: usize = 0;
    let mut i: usize = 0;
    while i < s.len()
        invariant
            start <= i <= s@.len(),
            views(r@) + split_from(s@, start as int, i as int) == split(s@),
        decreases s@.len() - i,
    {
        if s[i] == SLASH {
            let seg = copy_range(s, start, i);
            let ghost before = views(r@);
            r.push(seg);
            assert(views(r@) =~= before + seq![seg@]);
            assert(seq![seg@] + split_from(s@, i + 1, i + 1) == split_from(s@, start as int, i as int));
            assert(views(r@) + split_from(s@, i + 1, i + 1) =~= before + split_from(s@, start as int, i as int));
            start = i + 1;
        }
        i += 1;
    }
    let seg = copy_range(s, start, s.len());
    let ghost before = views(r@);
    r.push(seg);
    assert(views(r@) =~= before + seq![seg@]);
    r
}

/// Joins the pieces with a slash between each two, as `[String]::join("/")` does.
pub fn join_segments(segs: &[Vec<u8>]) -> (r: Vec<u8>)
    ensures
        r@ == join(views(segs@)),
{
    let mut r: Vec<u8> = Vec::new();
    if segs.len() == 0 {
        return r;
    }
    let mut k: usize = segs.len();
    // build from the back: r holds join(views(segs[k-1..]))
    r = copy_segment(&segs[k - 1]);
    k -= 1;
    proof {
        assert(views(segs@).subrange(k as int, segs@.len() as int) =~= seq![segs@[k as int]@]);
    }
    while k > 0
        invariant
            0 <= k < segs@.len(),
            r@ == join(views(segs@).subrange(k as int, segs@.len() as int)),
        decreases k,
    {
        let mut next = copy_segment(&segs[k - 1]);
        next.push(SLASH);
        let ghost tail = views(segs@).subrange(k as int, segs@.len() as int);
        let ghost whole = views(segs@).subrange(k - 1, segs@.len() as int);
        let mut rest = r;
        next.append(&mut rest);
        r = next;
        proof {
            assert(whole.drop_first() =~= tail);
            assert(whole[0] == segs@[k - 1]@);
        }
        k -= 1;
    }
    assert(views(segs@).subrange(0, segs@.len() as int) =~= views(segs@));
    r
}

pub fn copy_segment(v: &Vec<u8>) -> (r: Vec<u8>)
    ensures
        r@ == v@,
{
    copy_range(v.as_slice(), 0, v.len())
}

/// Appends the decimal digits of `n`.
pub fn write_decimal(n: u64, out: &mut Vec<u8>)
    ensures
        final(out)@ == old(out)@ + decimal(n as nat),
    decreases n,
{
    if n >= 10 {
        write_decimal(n / 10, out);
    }
    let d: u8 = (n % 10) as u8;
    out.push(48 + d);
    proof {
        if n >= 10 {
            assert(final(out)@ =~= old(out)@ + decimal(n as nat));
        } else {
            assert(final(out)@ =~= old(out)@ + decimal(n as nat));
        }
    }
}

proof fn lemma_digits_value_grows(s: Seq<u8>, i: int, j: int)
    requires
        0 <= i <= j <= s.len(),
        all_digits(s),
    ensures
        digits_value(s.subrange(0, i)) <= digits_value(s.subrange(0, j)),
    decreases j - i,
{
    if i < j {
        lemma_digits_value_grows(s, i, j - 1);
        assert(s.subrange(0, j).drop_last() =~= s.subrange(0, j - 1));
    }
}

/// Reads a base-ten unsigned number, as `u64::from_str_radix(_, 10)` does.
pub fn parse_decimal(s: &[u8]) -> (r: Option<u64>)
    ensures
        r == parse_u64(s@),
{
    let mut i: usize = 0;
    if s.len() > 0 && s[0] == PLUS {
        i = 1;
    }
    let ghost d = s@.subrange(i as int, s@.len() as int);
    proof {
        if s@.len() > 0 && s@[0] == PLUS {
            assert(d =~= s@.drop_first());
        } else {
            assert(d =~= s@);
        }
    }
    if i == s.len() {
        return None;
    }
    let start = i;
    let mut v: u64 = 0;
    while i < s.len()
        invariant
            start <= i <= s@.len(),
            d == s@.subrange(start as int, s@.len() as int),
            d == (if s@.len() > 0 && s@[0] == PLUS { s@.drop_first() } else { s@ }),
            d.len() > 0,
            forall|k: int| 0 <= k < i - start ==> is_digit(#[trigger] d[k]),
            v as nat == digits_value(d.subrange(0, i - start)),
        decreases s@.len() - i,
    {
        let b = s[i];
        if !(48 <= b && b <= 57) {
            assert(d[i - start] == b);
            return None;
        }
        let ghost pre = d.subrange(0, i - start);
        assert(d.subrange(0, i + 1 - start).drop_last() =~= pre);
        assert(d[i - start] == b);
        let digit: u64 = (b - 48) as u64;
        let lim: u64 = (u64::MAX - digit) / 10;
        if v > lim {
            proof {
                let x = d.subrange(0, i + 1 - start);
                assert(digits_value(x) == v * 10 + digit);
                assert(v * 10 + digit > u64::MAX) by (nonlinear_arith)
                    requires
                        v > lim,
                        lim == (u64::MAX - digit) / 10,
                        digit <= 9,
                ;
                if all_digits(d) {
                    lemma_digits_value_grows(d, i + 1 - start, d.len() as int);
                    assert(d.subrange(0, d.len() as int) =~= d);
                }
            }
            return None;
        }
        proof {
            assert(v * 10 + digit <= u64::MAX) by (nonlinear_arith)
                requires
                    v <= lim,
                    lim == (u64::MAX - digit) / 10,
                    digit <= 9,
            ;
        }
        v = v * 10 + digit;
        i += 1;
    }
    assert(d.subrange(0, d.len() as int) =~= d);
    Some(v)
}

/// Putting the pieces of a split back together gives the text that was split.
pub proof fn lemma_join_split(s: Seq<u8>)
    ensures
        join(split(s)) == s,
{
    lemma_join_split_from(s, 0, 0);
    assert(s.subrange(0, s.len() as int) =~= s);
}

/// A text without a slash splits into itself alone.
pub proof fn lemma_split_no_slash(s: Seq<u8>)
    requires
        forall|k: int| 0 <= k < s.len() ==> s[k] != SLASH,
    ensures
        split(s) == seq![s],
{
    lemma_split_rest_no_slash(s, 0);
    assert(s.subrange(0, s.len() as int) =~= s);
}

proof fn lemma_split_rest_no_slash(s: Seq<u8>, i: int)
    requires
        0 <= i <= s.len(),
        forall|k: int| 0 <= k < s.len() ==> s[k] != SLASH,
    ensures
        split_from(s, 0, i) == seq![s.subrange(0, s.len() as int)],
    decreases s.len() - i,
{
    if i < s.len() {
        lemma_split_rest_no_slash(s, i + 1);
    }
}

/// A split gives at least one piece.
pub proof fn lemma_split_len(s: Seq<u8>)
    ensures
        split(s).len() >= 1,
{
    lemma_join_split_from(s, 0, 0);
}

proof fn lemma_join_split_from(s: Seq<u8>, start: int, i: int)
    requires
        0 <= start <= i <= s.len(),
    ensures
        join(split_from(s, start, i)) == s.subrange(start, s.len() as int),
        split_from(s, start, i).len() >= 1,
    decreases s.len() - i,
{
    if i >= s.len() {
    } else if s[i] == SLASH {
        lemma_join_split_from(s, i + 1, i + 1);
        let r = split_from(s, i + 1, i + 1);
        let whole = seq![s.subrange(start, i)] + r;
        assert(whole.drop_first() =~= r);
        assert(whole.len() >= 2);
        assert(join(whole) == whole[0] + seq![SLASH] + join(whole.drop_first()));
        assert(s.subrange(start, s.len() as int) =~= s.subrange(start, i) + seq![SLASH] + s.subrange(i + 1, s.len() as int));
    } else {
        lemma_join_split_from(s, start, i + 1);
    }
}

/// A text whose first slash stands after `pre` splits into `pre` and the
/// pieces of what follows that slash.
pub proof fn lemma_split_after(pre: Seq<u8>, rest: Seq<u8>)
    requires
        forall|k: int| 0 <= k < pre.len() ==> pre[k] != SLASH,
    ensures
        split(pre + seq![SLASH] + rest) == seq![pre] + split(rest),
{
    let t = pre + seq![SLASH] + rest;
    let n = pre.len() as int;
    lemma_split_scan(t, n, 0);
    assert(t[n] == SLASH);
    assert(t.subrange(0, n) =~= pre);
    assert(t.subrange(n + 1, t.len() as int) =~= rest);
    lemma_split_shift(t, rest, n + 1, 0, 0);
}

proof fn lemma_split_scan(t: Seq<u8>, n: int, i: int)
    requires
        0 <= i <= n < t.len(),
        forall|k: int| 0 <= k < n ==> t[k] != SLASH,
    ensures
        split_from(t, 0, i) == split_from(t, 0, n),
    decreases n - i,
{
    if i < n {
        lemma_split_scan(t, n, i + 1);
    }
}

proof fn lemma_split_shift(t: Seq<u8>, rest: Seq<u8>, off: int, start: int, i: int)
    requires
        0 <= off,
        0 <= start <= i <= rest.len(),
        t.len() == off + rest.len(),
        t.subrange(off, t.len() as int) == rest,
    ensures
        split_from(t, off + start, off + i) == split_from(rest, start, i),
    decreases rest.len() - i,
{
    assert(forall|k: int| 0 <= k < rest.len() ==> t[off + k] == rest[k]) by {
        assert forall|k: int| 0 <= k < rest.len() implies t[off + k] == rest[k] by {
            assert(t.subrange(off, t.len() as int)[k] == t[off + k]);
        }
    }
    if i >= rest.len() {
        assert(t.subrange(off + start, t.len() as int) =~= rest.subrange(start, rest.len() as int));
    } else if rest[i] == SLASH {
        lemma_split_shift(t, rest, off, i + 1, i + 1);
        assert(t.subrange(off + start, off + i) =~= rest.subrange(start, i));
    } else {
        lemma_split_shift(t, rest, off, start, i + 1);
    }
}

} // verus!
