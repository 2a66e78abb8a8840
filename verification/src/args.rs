use vstd::prelude::*;
use vstd::string::*;

verus! {

// ---------------------------------------------------------------------------
// Characters and trimming
// ---------------------------------------------------------------------------

/// Unicode `White_Space`, the set that `str::trim` removes.
pub open spec fn is_whitespace(c: char) -> bool {
    ('\u{9}' <= c && c <= '\u{d}') || c == ' ' || c == '\u{85}' || c == '\u{a0}' || c
        == '\u{1680}' || ('\u{2000}' <= c && c <= '\u{200a}') || c == '\u{2028}' || c
        == '\u{2029}' || c == '\u{202f}' || c == '\u{205f}' || c == '\u{3000}'
}

pub open spec fn trim_start(s: Seq<char>) -> Seq<char>
    decreases s.len(),
{
    if s.len() > 0 && is_whitespace(s[0]) {
        trim_start(s.drop_first())
    } else {
        s
    }
}

pub open spec fn trim_end(s: Seq<char>) -> Seq<char>
    decreases s.len(),
{
    if s.len() > 0 && is_whitespace(s.last()) {
        trim_end(s.drop_last())
    } else {
        s
    }
}

/// `s` without leading and trailing whitespace.
pub open spec fn trim(s: Seq<char>) -> Seq<char> {
    trim_end(trim_start(s))
}

fn char_is_whitespace(c: char) -> (r: bool)
    ensures
        r == is_whitespace(c),
{
    ('\u{9}' <= c && c <= '\u{d}') || c == ' ' || c == '\u{85}' || c == '\u{a0}' || c
        == '\u{1680}' || ('\u{2000}' <= c && c <= '\u{200a}') || c == '\u{2028}' || c
        == '\u{2029}' || c == '\u{202f}' || c == '\u{205f}' || c == '\u{3000}'
}

proof fn lemma_trim_start(s: Seq<char>, a: int)
    requires
        0 <= a <= s.len(),
        forall|i: int| #![trigger s[i]] 0 <= i < a ==> is_whitespace(s[i]),
        a == s.len() || !is_whitespace(s[a]),
    ensures
        trim_start(s) == s.skip(a),
    decreases a,
{
    if a == 0 {
        assert(s.skip(0) =~= s);
    } else {
        assert(is_whitespace(s[0]));
        let t = s.drop_first();
        assert forall|i: int| #![trigger t[i]] 0 <= i < a - 1 implies is_whitespace(t[i]) by {
            assert(t[i] == s[i + 1]);
        }
        lemma_trim_start(t, a - 1);
        assert(t.skip(a - 1) =~= s.skip(a));
    }
}

proof fn lemma_trim_end(s: Seq<char>, b: int)
    requires
        0 <= b <= s.len(),
        forall|i: int| #![trigger s[i]] b <= i < s.len() ==> is_whitespace(s[i]),
        b == 0 || !is_whitespace(s[b - 1]),
    ensures
        trim_end(s) == s.take(b),
    decreases s.len() - b,
{
    if b == s.len() {
        assert(s.take(b) =~= s);
    } else {
        assert(is_whitespace(s.last()));
        let t = s.drop_last();
        assert forall|i: int| #![trigger t[i]] b <= i < t.len() implies is_whitespace(t[i]) by {
            assert(t[i] == s[i]);
        }
        lemma_trim_end(t, b);
        assert(t.take(b) =~= s.take(b));
    }
}

/// Bounds `(a, b)` of `s[from..to]` without its leading and trailing
/// whitespace.
fn trim_bounds(s: &Vec<char>, from: usize, to: usize) -> (r: (usize, usize))
    requires
        from <= to <= s@.len(),
    ensures
        from <= r.0 <= r.1 <= to,
        trim(s@.subrange(from as int, to as int)) == s@.subrange(r.0 as int, r.1 as int),
{
    let ghost t = s@.subrange(from as int, to as int);
    let mut a = from;
    while a < to && char_is_whitespace(s[a])
        invariant
            from <= a <= to,
            to <= s@.len(),
            t == s@.subrange(from as int, to as int),
            forall|i: int| #![trigger t[i]] 0 <= i < a - from ==> is_whitespace(t[i]),
        decreases to - a,
    {
        assert(t[a - from] == s@[a as int]);
        a = a + 1;
    }
    proof {
        if a < to {
            assert(t[a - from] == s@[a as int]);
        }
        lemma_trim_start(t, a - from);
    }
    let ghost u = t.skip(a - from);
    let mut b = to;
    while b > a && char_is_whitespace(s[b - 1])
        invariant
            from <= a <= b <= to,
            to <= s@.len(),
            u == s@.subrange(a as int, to as int),
            forall|i: int| #![trigger u[i]] b - a <= i < u.len() ==> is_whitespace(u[i]),
        decreases b - a,
    {
        assert(u[b - 1 - a] == s@[b - 1]);
        b = b - 1;
    }
    proof {
        assert(u =~= s@.subrange(a as int, to as int));
        if b > a {
            assert(u[b - a - 1] == s@[b - 1]);
        }
        lemma_trim_end(u, b - a);
        assert(u.take(b - a) =~= s@.subrange(a as int, b as int));
    }
    (a, b)
}

/// The characters of `s`.
fn chars_of(s: &str) -> (r: Vec<char>)
    ensures
        r@ == s@,
{
    let n = s.unicode_len();
    let mut v: Vec<char> = Vec::new();
    let mut i: usize = 0;
    while i < n
        invariant
            n == s@.len(),
            i <= n,
            v@ == s@.take(i as int),
        decreases n - i,
    {
        let c = s.get_char(i);
        v.push(c);
        assert(v@ =~= s@.take(i + 1));
        i = i + 1;
    }
    assert(v@ =~= s@);
    v
}

// ---------------------------------------------------------------------------
// Integers
// ---------------------------------------------------------------------------

pub open spec fn is_digit(c: char) -> bool {
    '0' <= c && c <= '9'
}

pub open spec fn all_digits(d: Seq<char>) -> bool {
    forall|i: int| #![trigger d[i]] 0 <= i < d.len() ==> is_digit(d[i])
}

/// Value of a string of decimal digits.
pub open spec fn digits_value(d: Seq<char>) -> int
    decreases d.len(),
{
    if d.len() == 0 {
        0
    } else {
        digits_value(d.drop_last()) * 10 + (d.last() as int - '0' as int)
    }
}

/// Value of `s` read as an unsigned decimal integer with an optional `+`,
/// as `str::parse` reads it: `None` when it is empty or holds anything
/// else.
pub open spec fn unsigned_value(s: Seq<char>) -> Option<int> {
    let d = if s.len() > 0 && s[0] == '+' {
        s.drop_first()
    } else {
        s
    };
    if d.len() > 0 && all_digits(d) {
        Some(digits_value(d))
    } else {
        None
    }
}

/// `s.parse::<usize>()`: `None` for a malformed string or a value above
/// `usize::MAX`.
pub open spec fn spec_parse_usize(s: Seq<char>) -> Option<usize> {
    match unsigned_value(s) {
        Some(v) => if v <= usize::MAX {
            Some(v as usize)
        } else {
            None
        },
        None => None,
    }
}

/// `s.parse::<i64>()`: an optional sign, then decimal digits; `None` for a
/// malformed string or a value out of range.
pub open spec fn spec_parse_i64(s: Seq<char>) -> Option<i64> {
    let neg = s.len() > 0 && s[0] == '-';
    let d = if s.len() > 0 && (s[0] == '-' || s[0] == '+') {
        s.drop_first()
    } else {
        s
    };
    if d.len() > 0 && all_digits(d) {
        let v = if neg {
            -digits_value(d)
        } else {
            digits_value(d)
        };
        if i64::MIN <= v <= i64::MAX {
            Some(v as i64)
        } else {
            None
        }
    } else {
        None
    }
}

proof fn lemma_digits_value_nonneg(d: Seq<char>)
    requires
        all_digits(d),
    ensures
        digits_value(d) >= 0,
    decreases d.len(),
{
    if d.len() > 0 {
        assert(all_digits(d.drop_last()));
        lemma_digits_value_nonneg(d.drop_last());
        assert(is_digit(d[d.len() - 1]));
    }
}

/// A prefix of a digit string is worth no more than the whole string.
proof fn lemma_digits_value_prefix(d: Seq<char>, k: int)
    requires
        all_digits(d),
        0 <= k <= d.len(),
    ensures
        digits_value(d.take(k)) <= digits_value(d),
    decreases d.len(),
{
    if k == d.len() {
        assert(d.take(k) =~= d);
    } else {
        let t = d.drop_last();
        assert(all_digits(t));
        lemma_digits_value_prefix(t, k);
        assert(t.take(k) =~= d.take(k));
        lemma_digits_value_nonneg(t);
        assert(is_digit(d[d.len() - 1]));
    }
}

/// Reads `s[from..to]` as decimal digits, giving up once the value passes
/// `limit`.
fn parse_digits(s: &Vec<char>, from: usize, to: usize, limit: u128) -> (r: Option<u128>)
    requires
        from <= to <= s@.len(),
        limit <= u64::MAX + 1,
    ensures
        ({
            let d = s@.subrange(from as int, to as int);
            r == if d.len() > 0 && all_digits(d) && digits_value(d) <= limit {
                Some(digits_value(d) as u128)
            } else {
                None::<u128>
            }
        }),
{
    let ghost d = s@.subrange(from as int, to as int);
    if from == to {
        return None;
    }
    let mut acc: u128 = 0;
    let mut i = from;
    while i < to
        invariant
            from <= i <= to,
            to <= s@.len(),
            limit <= u64::MAX + 1,
            d == s@.subrange(from as int, to as int),
            all_digits(d.take(i - from)),
            acc == digits_value(d.take(i - from)),
            acc <= limit,
        decreases to - i,
    {
        let c = s[i];
        assert(d[i - from] == c);
        assert(d.take(i - from + 1).drop_last() =~= d.take(i - from));
        if !('0' <= c && c <= '9') {
            assert(!all_digits(d));
            return None;
        }
        let digit = (c as u32 - '0' as u32) as u128;
        acc = acc * 10 + digit;
        assert(all_digits(d.take(i - from + 1)));
        if acc > limit {
            proof {
                if all_digits(d) {
                    lemma_digits_value_prefix(d, i - from + 1);
                }
            }
            return None;
        }
        i = i + 1;
    }
    assert(d.take(to - from) =~= d);
    Some(acc)
}

/// `s[from..to].parse::<usize>()`.
fn parse_usize(s: &Vec<char>, from: usize, to: usize) -> (r: Option<usize>)
    requires
        from <= to <= s@.len(),
    ensures
        r == spec_parse_usize(s@.subrange(from as int, to as int)),
{
    let ghost t = s@.subrange(from as int, to as int);
    let start = if from < to && s[from] == '+' {
        from + 1
    } else {
        from
    };
    proof {
        if from < to && s@[from as int] == '+' {
            assert(t.drop_first() =~= s@.subrange(start as int, to as int));
        } else {
            assert(t =~= s@.subrange(start as int, to as int));
        }
    }
    proof {
        let d = s@.subrange(start as int, to as int);
        if all_digits(d) {
            lemma_digits_value_nonneg(d);
        }
    }
    match parse_digits(s, start, to, usize::MAX as u128) {
        Some(v) => Some(v as usize),
        None => None,
    }
}

/// `s[from..to].parse::<i64>()`.
fn parse_i64(s: &Vec<char>, from: usize, to: usize) -> (r: Option<i64>)
    requires
        from <= to <= s@.len(),
    ensures
        r == spec_parse_i64(s@.subrange(from as int, to as int)),
{
    let ghost t = s@.subrange(from as int, to as int);
    let neg = from < to && s[from] == '-';
    let start = if from < to && (s[from] == '-' || s[from] == '+') {
        from + 1
    } else {
        from
    };
    proof {
        if from < to && (s@[from as int] == '-' || s@[from as int] == '+') {
            assert(t.drop_first() =~= s@.subrange(start as int, to as int));
        } else {
            assert(t =~= s@.subrange(start as int, to as int));
        }
    }
    let limit: u128 = if neg {
        0x8000_0000_0000_0000
    } else {
        0x7fff_ffff_ffff_ffff
    };
    proof {
        let d = s@.subrange(start as int, to as int);
        if all_digits(d) {
            lemma_digits_value_nonneg(d);
        }
    }
    match parse_digits(s, start, to, limit) {
        Some(v) => {
            if neg {
                if v == 0x8000_0000_0000_0000 {
                    Some(i64::MIN)
                } else {
                    Some(-(v as i64))
                }
            } else {
                Some(v as i64)
            }
        },
        None => {
            proof {
                let d = s@.subrange(start as int, to as int);
                if d.len() > 0 && all_digits(d) {
                    lemma_digits_value_nonneg(d);
                }
            }
            None
        },
    }
}


// ---------------------------------------------------------------------------
// Stream size
// ---------------------------------------------------------------------------

/// Characters that separate width from height: `x` in either case, `*`
/// and the multiplication sign.
pub open spec fn is_size_separator(c: char) -> bool {
    c == 'x' || c == 'X' || c == '*' || c == '\u{d7}'
}

/// `s` cut at every size separator (an empty string gives one empty piece).
pub open spec fn size_pieces(s: Seq<char>) -> Seq<Seq<char>>
    decreases s.len(),
{
    if s.len() == 0 {
        seq![Seq::<char>::empty()]
    } else {
        let p = size_pieces(s.drop_last());
        if is_size_separator(s.last()) {
            p.push(Seq::<char>::empty())
        } else {
            p.update(p.len() - 1, p.last().push(s.last()))
        }
    }
}

proof fn lemma_size_pieces_nonempty(s: Seq<char>)
    ensures
        size_pieces(s).len() >= 1,
    decreases s.len(),
{
    if s.len() > 0 {
        lemma_size_pieces_nonempty(s.drop_last());
    }
}

/// Width and height read from a size such as `1920x1080`, or the reason it
/// is rejected. Both numbers may be padded with whitespace; letter case and
/// the choice of separator do not matter.
pub open spec fn spec_size(s: Seq<char>) -> Result<(usize, usize), Seq<char>> {
    let p = size_pieces(s);
    match spec_parse_usize(trim(p[0])) {
        None => Err("Invalid width"@),
        Some(w) => if p.len() < 2 {
            Err("Missing height"@)
        } else {
            match spec_parse_usize(trim(p[1])) {
                None => Err("Invalid height"@),
                Some(h) => if p.len() > 2 {
                    Err("Too many dimensions"@)
                } else if w == 0 || h == 0 {
                    Err("Width and height must be greater than 0"@)
                } else {
                    Ok((w, h))
                },
            }
        },
    }
}

fn char_is_size_separator(c: char) -> (r: bool)
    ensures
        r == is_size_separator(c),
{
    c == 'x' || c == 'X' || c == '*' || c == '\u{d7}'
}

/// The pieces of `s` between size separators.
fn split_size(s: &Vec<char>) -> (r: Vec<Vec<char>>)
    ensures
        r@.map_values(|v: Vec<char>| v@) == size_pieces(s@),
{
    let mut pieces: Vec<Vec<char>> = Vec::new();
    pieces.push(Vec::new());
    let n = s.len();
    let mut i: usize = 0;
    proof {
        assert(s@.take(0) =~= Seq::<char>::empty());
        assert(pieces@.map_values(|v: Vec<char>| v@) =~= size_pieces(s@.take(0)));
    }
    while i < n
        invariant
            n == s@.len(),
            i <= n,
            pieces@.len() >= 1,
            pieces@.map_values(|v: Vec<char>| v@) == size_pieces(s@.take(i as int)),
        decreases n - i,
    {
        let c = s[i];
        let ghost prev = pieces@.map_values(|v: Vec<char>| v@);
        proof {
            assert(s@.take(i + 1).drop_last() =~= s@.take(i as int));
            assert(s@.take(i + 1).last() == c);
        }
        if char_is_size_separator(c) {
            pieces.push(Vec::new());
            assert(pieces@.map_values(|v: Vec<char>| v@) =~= prev.push(Seq::<char>::empty()));
        } else {
            let last = pieces.len() - 1;
            let mut piece: Vec<char> = Vec::new();
            std::mem::swap(&mut piece, &mut pieces[last]);
            piece.push(c);
            pieces[last] = piece;
            assert(pieces@.map_values(|v: Vec<char>| v@) =~= prev.update(
                prev.len() - 1,
                prev.last().push(c),
            ));
        }
        i = i + 1;
    }
    assert(s@.take(n as int) =~= s@);
    pieces
}

// ---------------------------------------------------------------------------
// Bit rates
// ---------------------------------------------------------------------------

/// What a character of a bit rate stands for: `k`, `m` and `g` stand for
/// three, six and nine zeros.
pub open spec fn suffix_expansion(c: char) -> Seq<char> {
    if c == 'k' {
        seq!['0', '0', '0']
    } else if c == 'm' {
        seq!['0', '0', '0', '0', '0', '0']
    } else if c == 'g' {
        seq!['0', '0', '0', '0', '0', '0', '0', '0', '0']
    } else {
        seq![c]
    }
}

pub open spec fn expand_suffixes(s: Seq<char>) -> Seq<char>
    decreases s.len(),
{
    if s.len() == 0 {
        Seq::empty()
    } else {
        expand_suffixes(s.drop_last()) + suffix_expansion(s.last())
    }
}

/// Bits per second written as a whole number with optional `k`, `m` and
/// `g` multiplier letters (`2500k`), padded with whitespace.
pub open spec fn spec_bit_rate(s: Seq<char>) -> Option<i64> {
    spec_parse_i64(expand_suffixes(trim(s)))
}

fn expand_bit_rate(s: &Vec<char>, from: usize, to: usize) -> (r: Vec<char>)
    requires
        from <= to <= s@.len(),
    ensures
        r@ == expand_suffixes(s@.subrange(from as int, to as int)),
{
    let ghost t = s@.subrange(from as int, to as int);
    let mut out: Vec<char> = Vec::new();
    let mut i = from;
    proof {
        assert(t.take(0) =~= Seq::<char>::empty());
    }
    while i < to
        invariant
            from <= i <= to,
            to <= s@.len(),
            t == s@.subrange(from as int, to as int),
            out@ == expand_suffixes(t.take(i - from)),
        decreases to - i,
    {
        let c = s[i];
        proof {
            assert(t.take(i - from + 1).drop_last() =~= t.take(i - from));
            assert(t.take(i - from + 1).last() == c);
        }
        let zeros: usize = if c == 'k' {
            3
        } else if c == 'm' {
            6
        } else if c == 'g' {
            9
        } else {
            0
        };
        let ghost prev = out@;
        if zeros == 0 {
            out.push(c);
            assert(out@ =~= prev + suffix_expansion(c));
        } else {
            let mut z: usize = 0;
            while z < zeros
                invariant
                    z <= zeros,
                    out@.len() == prev.len() + z,
                    forall|j: int| #![trigger out@[j]] 0 <= j < prev.len() ==> out@[j] == prev[j],
                    forall|j: int|
                        #![trigger out@[j]]
                        prev.len() <= j < out@.len() ==> out@[j] == '0',
                decreases zeros - z,
            {
                out.push('0');
                z = z + 1;
            }
            assert(out@ =~= prev + suffix_expansion(c));
        }
        i = i + 1;
    }
    assert(t.take(to - from) =~= t);
    out
}

fn bit_rate(s: &String, message: &str) -> (r: Result<i64, String>)
    ensures
        match r {
            Ok(v) => spec_bit_rate(s@) == Some(v),
            Err(e) => spec_bit_rate(s@) is None && e@ == message@,
        },
{
    let chars = chars_of(s.as_str());
    let (a, b) = trim_bounds(&chars, 0, chars.len());
    proof {
        assert(chars@.subrange(0, chars@.len() as int) =~= chars@);
    }
    let expanded = expand_bit_rate(&chars, a, b);
    let n = expanded.len();
    let parsed = parse_i64(&expanded, 0, n);
    proof {
        assert(expanded@.subrange(0, n as int) =~= expanded@);
    }
    match parsed {
        Some(v) => Ok(v),
        None => Err(message.to_owned()),
    }
}

// ---------------------------------------------------------------------------
// Encoder options
// ---------------------------------------------------------------------------

/// `i` is the position of the first `=` in `s`.
pub open spec fn is_first_eq(s: Seq<char>, i: int) -> bool {
    &&& 0 <= i < s.len()
    &&& s[i] == '='
    &&& forall|j: int| #![trigger s[j]] 0 <= j < i ==> s[j] != '='
}

/// Option name: the text before the first `=`, or all of it.
pub open spec fn option_key(s: Seq<char>) -> Seq<char> {
    if exists|i: int| is_first_eq(s, i) {
        s.take(choose|i: int| is_first_eq(s, i))
    } else {
        s
    }
}

/// Option value: the text after the first `=`, or nothing.
pub open spec fn option_value(s: Seq<char>) -> Seq<char> {
    if exists|i: int| is_first_eq(s, i) {
        s.skip((choose|i: int| is_first_eq(s, i)) + 1)
    } else {
        Seq::empty()
    }
}

/// Encoder options given as `key=value`; a later option overrides an
/// earlier one with the same key.
pub open spec fn options_map(opts: Seq<Seq<char>>) -> Map<Seq<char>, Seq<char>>
    decreases opts.len(),
{
    if opts.len() == 0 {
        Map::empty()
    } else {
        options_map(opts.drop_last()).insert(option_key(opts.last()), option_value(opts.last()))
    }
}

/// The map that a list of (key, value) pairs denotes.
pub open spec fn pairs_map(pairs: Seq<(Seq<char>, Seq<char>)>) -> Map<Seq<char>, Seq<char>>
    decreases pairs.len(),
{
    if pairs.len() == 0 {
        Map::empty()
    } else {
        pairs_map(pairs.drop_last()).insert(pairs.last().0, pairs.last().1)
    }
}

/// No key occurs twice.
pub open spec fn keys_distinct(pairs: Seq<(Seq<char>, Seq<char>)>) -> bool {
    forall|i: int, j: int|
        #![trigger pairs[i], pairs[j]]
        0 <= i < j < pairs.len() ==> pairs[i].0 != pairs[j].0
}

pub open spec fn pairs_view(pairs: Seq<(String, String)>) -> Seq<(Seq<char>, Seq<char>)> {
    pairs.map_values(|p: (String, String)| (p.0@, p.1@))
}

proof fn lemma_first_eq_unique(s: Seq<char>, i: int, k: int)
    requires
        is_first_eq(s, i),
        is_first_eq(s, k),
    ensures
        i == k,
{
    if i < k {
        assert(s[i] != '=');
    } else if k < i {
        assert(s[k] != '=');
    }
}

/// Splits an option at its first `=`.
fn split_option(opt: &String) -> (r: (String, String))
    ensures
        r.0@ == option_key(opt@),
        r.1@ == option_value(opt@),
{
    let chars = chars_of(opt.as_str());
    let n = chars.len();
    let mut i: usize = 0;
    while i < n && chars[i] != '='
        invariant
            n == opt@.len(),
            chars@ == opt@,
            i <= n,
            forall|j: int| #![trigger opt@[j]] 0 <= j < i ==> opt@[j] != '=',
        decreases n - i,
    {
        i = i + 1;
    }
    if i < n {
        proof {
            assert(is_first_eq(opt@, i as int));
            let k = choose|k: int| is_first_eq(opt@, k);
            lemma_first_eq_unique(opt@, i as int, k);
        }
        let key = opt.as_str().substring_char(0, i).to_owned();
        let value = opt.as_str().substring_char(i + 1, n).to_owned();
        proof {
            assert(opt@.subrange(0, i as int) =~= opt@.take(i as int));
            assert(opt@.subrange(i + 1, n as int) =~= opt@.skip(i + 1));
        }
        (key, value)
    } else {
        proof {
            assert forall|k: int| !is_first_eq(opt@, k) by {
                if is_first_eq(opt@, k) {
                    assert(opt@[k] == '=');
                }
            }
        }
        (opt.clone(), String::new())
    }
}

/// Inserting into the map of distinct pairs: replacing the value of the
/// pair with key `k` is the same as inserting `k`.
proof fn lemma_pairs_map_update(pairs: Seq<(Seq<char>, Seq<char>)>, idx: int, v: Seq<char>)
    requires
        keys_distinct(pairs),
        0 <= idx < pairs.len(),
    ensures
        pairs_map(pairs.update(idx, (pairs[idx].0, v))) == pairs_map(pairs).insert(pairs[idx].0, v),
    decreases pairs.len(),
{
    let k = pairs[idx].0;
    let up = pairs.update(idx, (k, v));
    if idx == pairs.len() - 1 {
        assert(up.drop_last() =~= pairs.drop_last());
        assert(pairs_map(up) =~= pairs_map(pairs).insert(k, v));
    } else {
        let t = pairs.drop_last();
        assert(keys_distinct(t));
        lemma_pairs_map_update(t, idx, v);
        assert(up.drop_last() =~= t.update(idx, (k, v)));
        assert(pairs[idx] == t[idx]);
        assert(pairs.last().0 != k);
        assert(pairs_map(up) =~= pairs_map(pairs).insert(k, v));
    }
}

/// A key that no pair has is not in the map.
proof fn lemma_pairs_map_absent(pairs: Seq<(Seq<char>, Seq<char>)>, k: Seq<char>)
    requires
        forall|i: int| #![trigger pairs[i]] 0 <= i < pairs.len() ==> pairs[i].0 != k,
    ensures
        !pairs_map(pairs).dom().contains(k),
    decreases pairs.len(),
{
    if pairs.len() > 0 {
        let t = pairs.drop_last();
        assert forall|i: int| #![trigger t[i]] 0 <= i < t.len() implies t[i].0 != k by {
            assert(t[i] == pairs[i]);
        }
        lemma_pairs_map_absent(t, k);
        assert(pairs[pairs.len() - 1].0 != k);
    }
}

// ---------------------------------------------------------------------------
// Command-line arguments
// ---------------------------------------------------------------------------

/// How an audio device is picked: by its index, or the system default.
#[derive(Clone, Copy, Debug, PartialEq, Eq, Structural)]
pub enum DeviceChoice {
    Index(usize),
    Default,
}

/// The audio sources to capture.
#[derive(Clone, Copy, Debug, PartialEq, Eq, Structural)]
pub enum AudioSetup {
    /// No audio is captured.
    Silent,
    /// Only the sound played by an output device (loopback).
    Render(DeviceChoice),
    /// Only a microphone.
    Microphone(DeviceChoice),
    /// Both, mixed into one stream: (render, microphone).
    Mixed(DeviceChoice, DeviceChoice),
}

pub open spec fn spec_device_choice(flag: Option<usize>) -> DeviceChoice {
    match flag {
        Some(i) => DeviceChoice::Index(i),
        None => DeviceChoice::Default,
    }
}

/// Capture and streaming settings, as given on the command line.
pub struct Args {
    /// enable debug mode
    pub debug: bool,
    /// ffmpeg path
    pub ffmpeg: String,
    /// mic device index (`Some(None)`: the default microphone)
    pub microphone: Option<Option<usize>>,
    /// audio device index (`Some(None)`: the default output device)
    pub audio: Option<Option<usize>>,
    /// display device index (`Some(None)`: the first display)
    pub display: Option<Option<usize>>,
    /// video encoder name
    pub video_encoder: String,
    /// stream size
    pub size: String,
    /// video bit rate
    pub video_bit_rate: String,
    /// stream fps
    pub fps: usize,
    /// additional options for the video encoder
    pub video_options: Vec<String>,
    /// audio encoder name
    pub audio_encoder: String,
    /// audio bit rate
    pub audio_bit_rate: String,
    /// sample rate
    pub sample_rate: usize,
    /// number of audio channels
    pub channels: usize,
    /// bytes per sample
    pub bytes_per_sample: usize,
    /// target URL for the stream
    pub url: String,
}

impl Args {
    /// Width and height of the stream, read from `size` (`1920x1080`).
    pub fn size(&self) -> (r: Result<(usize, usize), String>)
        ensures
            match r {
                Ok(wh) => spec_size(self.size@) == Ok::<(usize, usize), Seq<char>>(wh),
                Err(e) => spec_size(self.size@) == Err::<(usize, usize), Seq<char>>(e@),
            },
            r matches Ok(wh) ==> wh.0 > 0 && wh.1 > 0,
    {
        let chars = chars_of(self.size.as_str());
        let pieces = split_size(&chars);
        let ghost p = size_pieces(chars@);
        proof {
            lemma_size_pieces_nonempty(chars@);
            assert(pieces@[0]@ == p[0]);
        }
        let (a, b) = trim_bounds(&pieces[0], 0, pieces[0].len());
        proof {
            assert(pieces@[0]@.subrange(0, pieces@[0]@.len() as int) =~= p[0]);
        }
        let width = match parse_usize(&pieces[0], a, b) {
            Some(w) => w,
            None => return Err(String::from_str("Invalid width")),
        };
        if pieces.len() < 2 {
            return Err(String::from_str("Missing height"));
        }
        proof {
            assert(pieces@[1]@ == p[1]);
        }
        let (c, d) = trim_bounds(&pieces[1], 0, pieces[1].len());
        proof {
            assert(pieces@[1]@.subrange(0, pieces@[1]@.len() as int) =~= p[1]);
        }
        let height = match parse_usize(&pieces[1], c, d) {
            Some(h) => h,
            None => return Err(String::from_str("Invalid height")),
        };
        if pieces.len() > 2 {
            return Err(String::from_str("Too many dimensions"));
        }
        if width == 0 || height == 0 {
            return Err(String::from_str("Width and height must be greater than 0"));
        }
        Ok((width, height))
    }

    /// Video bit rate in bits per second, read from `video_bit_rate`.
    pub fn video_bit_rate(&self) -> (r: Result<i64, String>)
        ensures
            match r {
                Ok(v) => spec_bit_rate(self.video_bit_rate@) == Some(v),
                Err(e) => spec_bit_rate(self.video_bit_rate@) is None && e@ == "Invalid bitrate"@,
            },
    {
        bit_rate(&self.video_bit_rate, "Invalid bitrate")
    }

    /// Audio bit rate in bits per second, read from `audio_bit_rate`.
    pub fn audio_bit_rate(&self) -> (r: Result<i64, String>)
        ensures
            match r {
                Ok(v) => spec_bit_rate(self.audio_bit_rate@) == Some(v),
                Err(e) => spec_bit_rate(self.audio_bit_rate@) is None && e@
                    == "Invalid audio bitrate"@,
            },
    {
        bit_rate(&self.audio_bit_rate, "Invalid audio bitrate")
    }

    /// The encoder options, as (key, value) pairs with distinct keys; a
    /// later option with the same key wins.
    pub fn video_options(&self) -> (r: Vec<(String, String)>)
        ensures
            keys_distinct(pairs_view(r@)),
            pairs_map(pairs_view(r@)) == options_map(self.video_options@.map_values(|o: String| o@)),
    {
        let ghost opts = self.video_options@.map_values(|o: String| o@);
        let mut pairs: Vec<(String, String)> = Vec::new();
        let n = self.video_options.len();
        let mut i: usize = 0;
        proof {
            assert(opts.take(0) =~= Seq::<Seq<char>>::empty());
            assert(pairs_view(pairs@) =~= Seq::<(Seq<char>, Seq<char>)>::empty());
        }
        while i < n
            invariant
                n == opts.len(),
                opts == self.video_options@.map_values(|o: String| o@),
                i <= n,
                keys_distinct(pairs_view(pairs@)),
                pairs_map(pairs_view(pairs@)) == options_map(opts.take(i as int)),
            decreases n - i,
        {
            let (key, value) = split_option(&self.video_options[i]);
            proof {
                assert(opts.take(i + 1).drop_last() =~= opts.take(i as int));
                assert(opts.take(i + 1).last() == self.video_options@[i as int]@);
            }
            let ghost before = pairs_view(pairs@);
            let m = pairs.len();
            let mut j: usize = 0;
            while j < m && pairs[j].0 != key
                invariant
                    m == pairs@.len(),
                    before == pairs_view(pairs@),
                    j <= m,
                    forall|t: int| #![trigger before[t]] 0 <= t < j ==> before[t].0 != key@,
                decreases m - j,
            {
                assert(before[j as int] == (pairs@[j as int].0@, pairs@[j as int].1@));
                j = j + 1;
            }
            if j < m {
                proof {
                    assert(before[j as int].0 == key@);
                    lemma_pairs_map_update(before, j as int, value@);
                }
                pairs[j] = (key, value);
                proof {
                    assert(pairs_view(pairs@) =~= before.update(j as int, (key@, value@)));
                }
            } else {
                proof {
                    lemma_pairs_map_absent(before, key@);
                }
                pairs.push((key, value));
                proof {
                    let after = pairs_view(pairs@);
                    assert(after =~= before.push((key@, value@)));
                    assert(after.drop_last() =~= before);
                }
            }
            i = i + 1;
        }
        proof {
            assert(opts.take(n as int) =~= opts);
        }
        pairs
    }

    /// Whether anything is to be captured at all.
    pub fn has_inputs(&self) -> (r: bool)
        ensures
            r == (self.audio is Some || self.microphone is Some || self.display is Some),
    {
        self.audio.is_some() || self.microphone.is_some() || self.display.is_some()
    }

    /// Index of the display to capture, if one is to be captured.
    pub fn display_index(&self) -> (r: Option<usize>)
        ensures
            r == match self.display {
                Some(Some(i)) => Some(i),
                Some(None) => Some(0usize),
                None => None::<usize>,
            },
    {
        match self.display {
            Some(Some(i)) => Some(i),
            Some(None) => Some(0),
            None => None,
        }
    }

    /// The audio sources to capture: an output device (loopback), a
    /// microphone, both mixed, or none.
    pub fn audio_setup(&self) -> (r: AudioSetup)
        ensures
            r == match (self.audio, self.microphone) {
                (Some(a), Some(m)) => AudioSetup::Mixed(
                    spec_device_choice(a),
                    spec_device_choice(m),
                ),
                (Some(a), None) => AudioSetup::Render(spec_device_choice(a)),
                (None, Some(m)) => AudioSetup::Microphone(spec_device_choice(m)),
                (None, None) => AudioSetup::Silent,
            },
    {
        let render = match self.audio {
            Some(Some(i)) => Some(DeviceChoice::Index(i)),
            Some(None) => Some(DeviceChoice::Default),
            None => None,
        };
        let mic = match self.microphone {
            Some(Some(i)) => Some(DeviceChoice::Index(i)),
            Some(None) => Some(DeviceChoice::Default),
            None => None,
        };
        match (render, mic) {
            (Some(a), Some(m)) => AudioSetup::Mixed(a, m),
            (Some(a), None) => AudioSetup::Render(a),
            (None, Some(m)) => AudioSetup::Microphone(m),
            (None, None) => AudioSetup::Silent,
        }
    }
}


/// A string of digits reads as itself after suffix expansion.
proof fn lemma_expand_digits(d: Seq<char>)
    requires
        all_digits(d),
    ensures
        expand_suffixes(d) == d,
    decreases d.len(),
{
    if d.len() > 0 {
        assert(all_digits(d.drop_last()));
        lemma_expand_digits(d.drop_last());
        assert(is_digit(d[d.len() - 1]));
        assert(d.drop_last() + seq![d.last()] =~= d);
    }
}

/// A bit rate written as digits followed by `k` is the number times a
/// thousand (when that fits in an `i64`).
pub proof fn lemma_kilo_suffix(d: Seq<char>)
    requires
        d.len() > 0,
        all_digits(d),
        digits_value(d) * 1000 <= i64::MAX,
    ensures
        spec_bit_rate(d.push('k')) == Some((digits_value(d) * 1000) as i64),
{
    let s = d.push('k');
    assert(is_digit(d[0]));
    assert(s[0] == d[0]);
    assert(!is_whitespace(s[0]));
    assert(trim_start(s) == s);
    assert(s.last() == 'k');
    assert(trim_end(s) == s);
    assert(trim(s) == s);
    assert(s.drop_last() =~= d);
    lemma_expand_digits(d);
    let z = d + seq!['0', '0', '0'];
    assert(expand_suffixes(s) == z);
    let z1 = d.push('0');
    let z2 = z1.push('0');
    let z3 = z2.push('0');
    assert(z3 =~= z);
    assert(z1.drop_last() =~= d);
    assert(z2.drop_last() =~= z1);
    assert(z3.drop_last() =~= z2);
    assert(digits_value(z1) == digits_value(d) * 10);
    assert(digits_value(z2) == digits_value(z1) * 10);
    assert(digits_value(z3) == digits_value(z2) * 10);
    assert(digits_value(z) == digits_value(d) * 1000);
    assert(all_digits(z)) by {
        assert forall|i: int| #![trigger z[i]] 0 <= i < z.len() implies is_digit(z[i]) by {
            if i < d.len() {
                assert(z[i] == d[i]);
            }
        }
    }
    lemma_digits_value_nonneg(d);
    assert(z[0] == d[0]);
}

} // verus!
