//! Configuration, from the values of the environment.

use crate::text;
use vstd::prelude::*;

verus! {

#[derive(Clone)]
pub struct Config {
    pub backend: String,
    pub bind: String,
    /// Must equal the backend's `--slot-save-path` (same file system view): the
    /// names of a save and a restore are resolved there.
    pub cache_dir: String,
    pub cache_limit_mb: u64,
    pub backend_api_key: Option<String>,
    pub session_header: String,
}

/// The values of the environment variables that configure the proxy.
pub struct Vars {
    pub home: Option<String>,
    pub backend_url: Option<String>,
    pub bind: Option<String>,
    pub cache_dir: Option<String>,
    pub cache_limit_mb: Option<String>,
    pub backend_api_key: Option<String>,
    pub session_header: Option<String>,
}

/// The value of a variable, or the default where it is unset.
pub open spec fn or_default(v: Option<String>, default: Seq<char>) -> Seq<char> {
    match v {
        Some(s) => s@,
        None => default,
    }
}

/// Whether a character is a decimal digit.
pub open spec fn digit(c: char) -> bool {
    '0' <= c && c <= '9'
}

/// The number that a row of decimal digits writes down.
pub open spec fn digits_value(s: Seq<char>) -> nat
    decreases s.len(),
{
    if s.len() == 0 {
        0
    } else {
        digits_value(s.drop_last()) * 10 + (s.last() as int - '0' as int) as nat
    }
}

/// A text without a leading plus sign.
pub open spec fn unsigned_part(s: Seq<char>) -> Seq<char> {
    if s.len() > 0 && s[0] == '+' {
        s.skip(1)
    } else {
        s
    }
}

/// The number that a text writes down: decimal digits, with or without a plus
/// sign in front, and not too large.
pub open spec fn number(s: Seq<char>) -> Option<u64> {
    let t = unsigned_part(s);
    if t.len() > 0 && (forall|i: int| 0 <= i < t.len() ==> digit(#[trigger] t[i])) && digits_value(t) <= u64::MAX {
        Some(digits_value(t) as u64)
    } else {
        None
    }
}

proof fn lemma_digits_grow(s: Seq<char>, k: int)
    requires
        0 <= k <= s.len(),
    ensures
        digits_value(s.take(k)) <= digits_value(s),
    decreases s.len() - k,
{
    if k < s.len() {
        lemma_digits_grow(s, k + 1);
        assert(s.take(k + 1).drop_last() =~= s.take(k));
    } else {
        assert(s.take(k) =~= s);
    }
}

/// Read a number as it stands in the environment.
pub fn parse_number(s: &str) -> (r: Option<u64>)
    ensures
        r == number(s@),
{
    let ghost t = unsigned_part(s@);
    let ghost shift: int = s@.len() - t.len();
    let mut seen: bool = false;
    let mut first: bool = true;
    let mut value: u64 = 0;
    for c in it: s.chars()
        invariant
            it.seq() == s@,
            t == unsigned_part(s@),
            shift == s@.len() - t.len(),
            shift == 0 || shift == 1,
            first == (it.index() == 0),
            seen == (it.index() > shift),
            forall|i: int| 0 <= i < it.index() - shift ==> digit(#[trigger] t[i]),
            value == digits_value(t.take(if it.index() >= shift { it.index() - shift } else { 0 })),
    {
        let ghost i = it.index();
        if first && c == '+' {
            first = false;
            assert(t.take(0) =~= Seq::<char>::empty());
        } else {
            first = false;
            assert(c == t[i - shift]);
            if !('0' <= c && c <= '9') {
                return None;
            }
            let d: u64 = c as u64 - 48;
            proof {
                assert(t.take(i - shift + 1).drop_last() =~= t.take(i - shift));
                lemma_digits_grow(t, i - shift + 1);
            }
            match value.checked_mul(10) {
                Some(v) => match v.checked_add(d) {
                    Some(w) => {
                        value = w;
                    },
                    None => {
                        return None;
                    },
                },
                None => {
                    return None;
                },
            }
            seen = true;
        }
    }
    proof {
        assert(t.take(t.len() as int) =~= t);
    }
    if seen {
        Some(value)
    } else {
        None
    }
}

fn value_or(v: &Option<String>, default: &str) -> (r: String)
    ensures
        r@ == or_default(*v, default@),
{
    match v {
        Some(s) => s.clone(),
        None => default.to_owned(),
    }
}

impl Config {
    /// The configuration that the environment's values give. An unset variable
    /// has its default; a cap that is no number counts as unset, and an empty
    /// key as none.
    pub fn from_vars(vars: &Vars) -> (c: Self)
        ensures
            c.backend@ == or_default(vars.backend_url, "http://127.0.0.1:1245"@),
            c.bind@ == or_default(vars.bind, "0.0.0.0:1247"@),
            c.cache_dir@ == or_default(
                vars.cache_dir,
                text::joined_path(or_default(vars.home, "/tmp"@), ".ollm/cache"@),
            ),
            c.cache_limit_mb == (match vars.cache_limit_mb {
                Some(s) => match number(s@) {
                    Some(n) => n,
                    None => 51200,
                },
                None => 51200,
            }),
            match c.backend_api_key {
                Some(k) => vars.backend_api_key matches Some(s) && s@ == k@ && k@.len() > 0,
                None => vars.backend_api_key matches Some(s) ==> s@.len() == 0,
            },
            c.session_header@ == or_default(vars.session_header, "x-session-id"@),
    {
        Config {
            backend: value_or(&vars.backend_url, "http://127.0.0.1:1245"),
            bind: value_or(&vars.bind, "0.0.0.0:1247"),
            cache_dir: match &vars.cache_dir {
                Some(d) => d.clone(),
                None => text::join_path(value_or(&vars.home, "/tmp").as_str(), ".ollm/cache"),
            },
            cache_limit_mb: match &vars.cache_limit_mb {
                Some(s) => match parse_number(s.as_str()) {
                    Some(n) => n,
                    None => 51200,
                },
                None => 51200,
            },
            backend_api_key: match &vars.backend_api_key {
                Some(s) => if s.as_str().is_empty() { None } else { Some(s.clone()) },
                None => None,
            },
            session_header: value_or(&vars.session_header, "x-session-id"),
        }
    }
}

proof fn lemma_numeral(n: nat)
    ensures
        digits_value(text::decimal(n)) == n,
        forall|i: int| 0 <= i < text::decimal(n).len() ==> digit(#[trigger] text::decimal(n)[i]),
        text::decimal(n).len() > 0,
        text::decimal(n)[0] != '+',
    decreases n,
{
    text::law_decimal_is_the_number(n);
    let s = text::decimal(n);
    assert('0' <= s[0] && s[0] <= '9');
    assert forall|i: int| 0 <= i < s.len() implies digit(#[trigger] s[i]) by {
        assert('0' <= s[i] && s[i] <= '9');
    }
    if n < 10 {
        assert(s.drop_last() =~= Seq::<char>::empty());
        assert(digits_value(s.drop_last()) == 0);
    } else {
        lemma_numeral(n / 10);
        assert(s.drop_last() =~= text::decimal(n / 10));
    }
}

/// A number is read back from its decimal numeral, with or without a plus sign,
/// if it fits sixty-four bits, and only then.
pub proof fn law_number_is_read_back(n: nat)
    ensures
        n <= u64::MAX ==> number(text::decimal(n)) == Some(n as u64),
        n <= u64::MAX ==> number(seq!['+'] + text::decimal(n)) == Some(n as u64),
        n > u64::MAX ==> number(text::decimal(n)) is None,
        n > u64::MAX ==> number(seq!['+'] + text::decimal(n)) is None,
{
    lemma_numeral(n);
    let s = text::decimal(n);
    assert((seq!['+'] + s).skip(1) =~= s);
}

/// A leading zero counts for nothing.
pub proof fn law_leading_zero_counts_for_nothing(s: Seq<char>)
    requires
        s.len() > 0,
        forall|i: int| 0 <= i < s.len() ==> '0' <= #[trigger] s[i] && s[i] <= '9',
    ensures
        number(seq!['0'] + s) == number(s),
{
    lemma_leading_zero(s);
    let z = seq!['0'] + s;
    assert(s[0] != '+');
    assert forall|i: int| 0 <= i < z.len() implies digit(#[trigger] z[i]) by {
        if i > 0 {
            assert(z[i] == s[i - 1]);
        }
    }
    assert forall|i: int| 0 <= i < s.len() implies digit(#[trigger] s[i]) by {}
}

proof fn lemma_leading_zero(s: Seq<char>)
    ensures
        digits_value(seq!['0'] + s) == digits_value(s),
    decreases s.len(),
{
    let z = seq!['0'] + s;
    if s.len() == 0 {
        assert(z.drop_last() =~= Seq::<char>::empty());
        assert(digits_value(z.drop_last()) == 0);
    } else {
        lemma_leading_zero(s.drop_last());
        assert(z.drop_last() =~= seq!['0'] + s.drop_last());
    }
}

/// A text is no number if any character of it is no digit, but for a plus sign in
/// front, or if it has no digit at all.
pub proof fn law_what_is_no_number(s: Seq<char>, i: int)
    ensures
        0 <= i < s.len() && !('0' <= s[i] && s[i] <= '9') && !(i == 0 && s[0] == '+') ==> number(s) is None,
        number(Seq::empty()) is None,
        number(seq!['+']) is None,
{
    if 0 <= i < s.len() && !('0' <= s[i] && s[i] <= '9') && !(i == 0 && s[0] == '+') {
        let t = unsigned_part(s);
        if s[0] == '+' {
            assert(t[i - 1] == s[i]);
        } else {
            assert(t[i] == s[i]);
        }
    }
    assert(seq!['+'].skip(1).len() == 0);
}

/// A variable that is set counts as it is, and its default only where it is not.
pub proof fn law_default_only_where_unset(v: Option<String>, default: Seq<char>)
    ensures
        v matches Some(s) ==> or_default(v, default) == s@,
        v is None ==> or_default(v, default) == default,
{
}

} // verus!
