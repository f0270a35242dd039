use vstd::prelude::*;

verus! {

/// Claims of a login token.
#[derive(Clone, Debug)]
pub struct CharacterInfo {
    pub scp: Vec<String>,
    pub jti: String,
    pub kid: String,
    /// Subject, of the form `CHARACTER:EVE:<character id>`.
    pub sub: String,
    pub azp: String,
    pub tenant: String,
    pub tier: String,
}

/// A trading station or citadel, by name.
#[derive(Clone, Copy, Debug)]
pub struct Station<'a> {
    pub is_citadel: bool,
    pub name: &'a str,
}

/// A station or citadel id.
#[derive(Clone, Copy, Debug, PartialEq, Eq)]
pub struct StationId {
    pub is_citadel: bool,
    pub id: i64,
}

/// Where a station lies.
#[derive(Clone, Copy, Debug, PartialEq, Eq)]
pub struct StationIdData {
    pub station_id: StationId,
    pub system_id: i32,
    pub region_id: i32,
}

/// Index of the first ':' at or after `i`, or the length when there is none.
pub open spec fn colon_from(s: Seq<char>, i: int) -> int
    decreases s.len() - i,
{
    if i >= s.len() {
        s.len() as int
    } else if s[i] == ':' {
        i
    } else {
        colon_from(s, i + 1)
    }
}

/// Where the `n`-th (from 0) ':'-separated field of `s` starts, if it exists.
pub open spec fn field_start(s: Seq<char>, n: nat) -> Option<int>
    decreases n,
{
    if n == 0 {
        Some(0)
    } else {
        match field_start(s, (n - 1) as nat) {
            Some(st) => {
                let c = colon_from(s, st);
                if c < s.len() {
                    Some(c + 1)
                } else {
                    None
                }
            },
            None => None,
        }
    }
}

/// The `n`-th (from 0) ':'-separated field of `s`.
pub open spec fn field(s: Seq<char>, n: nat) -> Option<Seq<char>> {
    match field_start(s, n) {
        Some(st) => Some(s.subrange(st, colon_from(s, st))),
        None => None,
    }
}

pub open spec fn is_digit(c: char) -> bool {
    '0' <= c <= '9'
}

pub open spec fn all_digits(d: Seq<char>) -> bool {
    forall|i: int| 0 <= i < d.len() ==> is_digit(#[trigger] d[i])
}

/// The number that a string of decimal digits writes.
pub open spec fn digits_value(d: Seq<char>) -> int
    decreases d.len(),
{
    if d.len() == 0 {
        0
    } else {
        digits_value(d.drop_last()) * 10 + (d.last() as int - '0' as int)
    }
}

/// Decimal `i32` syntax: an optional sign, then at least one digit, the
/// value in range.
pub open spec fn parse_i32_of(f: Seq<char>) -> Option<i32> {
    let neg = f.len() > 0 && f[0] == '-';
    let signed = f.len() > 0 && (f[0] == '-' || f[0] == '+');
    let d = if signed {
        f.drop_first()
    } else {
        f
    };
    let v = if neg {
        -digits_value(d)
    } else {
        digits_value(d)
    };
    if d.len() == 0 || !all_digits(d) || v < i32::MIN || v > i32::MAX {
        None
    } else {
        Some(v as i32)
    }
}

/// The character id: the third ':'-separated field of the subject.
pub open spec fn character_id_of(sub: Seq<char>) -> Option<i32> {
    match field(sub, 2) {
        Some(f) => parse_i32_of(f),
        None => None,
    }
}

proof fn lemma_digits_value_nonneg(d: Seq<char>)
    requires
        all_digits(d),
    ensures
        0 <= digits_value(d),
    decreases d.len(),
{
    if d.len() > 0 {
        assert(all_digits(d.drop_last()));
        assert(is_digit(d[d.len() - 1]));
        lemma_digits_value_nonneg(d.drop_last());
    }
}

proof fn lemma_digits_value_grows(d: Seq<char>, k: int)
    requires
        0 <= k <= d.len(),
        all_digits(d),
    ensures
        digits_value(d.take(k)) <= digits_value(d),
    decreases d.len() - k,
{
    if k < d.len() {
        lemma_digits_value_grows(d, k + 1);
        assert(d.take(k + 1).drop_last() == d.take(k));
        assert(d.take(k + 1).last() == d[k]);
        assert(is_digit(d[k]));
        assert(all_digits(d.take(k)));
        lemma_digits_value_nonneg(d.take(k));
    } else {
        assert(d.take(k) == d);
    }
}

fn colon_from_exec(s: &str, i: usize) -> (r: usize)
    requires
        i <= s@.len(),
    ensures
        r == colon_from(s@, i as int),
{
    let n = s.unicode_len();
    let mut j = i;
    while j < n
        invariant
            n == s@.len(),
            i <= j <= n,
            colon_from(s@, i as int) == colon_from(s@, j as int),
        decreases n - j,
    {
        if s.get_char(j) == ':' {
            return j;
        }
        j = j + 1;
    }
    j
}

proof fn lemma_colon_from_bounds(s: Seq<char>, i: int)
    requires
        0 <= i <= s.len(),
    ensures
        i <= colon_from(s, i) <= s.len(),
    decreases s.len() - i,
{
    if i < s.len() && s[i] != ':' {
        lemma_colon_from_bounds(s, i + 1);
    }
}

/// Parses decimal `i32` syntax in `s[from..to]` (see `parse_i32_of`).
fn parse_i32_range(s: &str, from: usize, to: usize) -> (r: Option<i32>)
    requires
        from <= to <= s@.len(),
    ensures
        r == parse_i32_of(s@.subrange(from as int, to as int)),
{
    let ghost f = s@.subrange(from as int, to as int);
    let mut start = from;
    let mut neg = false;
    if from < to {
        let c = s.get_char(from);
        if c == '-' || c == '+' {
            neg = c == '-';
            start = from + 1;
        }
    }
    let ghost d = s@.subrange(start as int, to as int);
    assert(f.len() > 0 && (f[0] == '-' || f[0] == '+') ==> d == f.drop_first());
    assert(!(f.len() > 0 && (f[0] == '-' || f[0] == '+')) ==> d == f);
    assert(neg == (f.len() > 0 && f[0] == '-'));
    if start == to {
        return None;
    }
    let mut acc: i64 = 0;
    let mut k = start;
    while k < to
        invariant
            from <= start <= k <= to <= s@.len(),
            d == s@.subrange(start as int, to as int),
            f == s@.subrange(from as int, to as int),
            d.len() > 0,
            f.len() > 0 && (f[0] == '-' || f[0] == '+') ==> d == f.drop_first(),
            !(f.len() > 0 && (f[0] == '-' || f[0] == '+')) ==> d == f,
            neg == (f.len() > 0 && f[0] == '-'),
            0 <= acc <= 0x8000_0000,
            all_digits(d.take(k - start)),
            acc == digits_value(d.take(k - start)),
        decreases to - k,
    {
        let c = s.get_char(k);
        assert(d[k - start] == c);
        if !('0' <= c && c <= '9') {
            assert(!is_digit(d[k - start]));
            return None;
        }
        assert(d.take(k - start + 1).drop_last() == d.take(k - start));
        acc = acc * 10 + (c as i64 - '0' as i64);
        k = k + 1;
        if acc > 0x8000_0000 {
            proof {
                let rest = d;
                if all_digits(rest) {
                    lemma_digits_value_grows(rest, k - start);
                }
            }
            return None;
        }
    }
    assert(d.take(to - start) == d);
    let v: i64 = if neg { -acc } else { acc };
    if v > 0x7fff_ffff {
        return None;
    }
    Some(v as i32)
}

impl CharacterInfo {
    /// The character id written in the subject (see `character_id_of`).
    pub fn character_id(&self) -> (r: Option<i32>)
        ensures
            r == character_id_of(self.sub@),
    {
        let s = self.sub.as_str();
        let n = s.unicode_len();
        let c0 = colon_from_exec(s, 0);
        proof {
            lemma_colon_from_bounds(s@, 0);
            reveal_with_fuel(field_start, 3);
        }
        if c0 >= n {
            return None;
        }
        let c1 = colon_from_exec(s, c0 + 1);
        proof {
            lemma_colon_from_bounds(s@, c0 + 1);
        }
        if c1 >= n {
            return None;
        }
        let c2 = colon_from_exec(s, c1 + 1);
        proof {
            lemma_colon_from_bounds(s@, c1 + 1);
        }
        parse_i32_range(s, c1 + 1, c2)
    }
}

} // verus!
