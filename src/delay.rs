use vstd::prelude::*;

verus! {

/// Whether two characters are equal once ASCII letters are folded to lower case.
pub open spec fn char_eq_ignore_ascii_case(a: char, b: char) -> bool {
    ||| a == b
    ||| ('A' <= a <= 'Z' && b as u32 == a as u32 + 32)
    ||| ('A' <= b <= 'Z' && a as u32 == b as u32 + 32)
}

/// Whether two strings are equal once ASCII letters are folded to lower case.
pub open spec fn spec_eq_ignore_ascii_case(a: Seq<char>, b: Seq<char>) -> bool {
    &&& a.len() == b.len()
    &&& forall|i: int| 0 <= i < a.len() ==> char_eq_ignore_ascii_case(#[trigger] a[i], b[i])
}

fn char_matches(a: char, b: char) -> (r: bool)
    ensures
        r == char_eq_ignore_ascii_case(a, b),
{
    let x = a as u32;
    let y = b as u32;
    x == y || (65 <= x && x <= 90 && y == x + 32) || (65 <= y && y <= 90 && x == y + 32)
}

/// Compares two strings, ignoring the case of ASCII letters.
pub fn eq_ignore_ascii_case(a: &str, b: &str) -> (r: bool)
    ensures
        r == spec_eq_ignore_ascii_case(a@, b@),
{
    let n = a.unicode_len();
    if n != b.unicode_len() {
        return false;
    }
    let mut i: usize = 0;
    while i < n
        invariant
            n == a@.len(),
            n == b@.len(),
            i <= n,
            forall|j: int| 0 <= j < i ==> char_eq_ignore_ascii_case(#[trigger] a@[j], b@[j]),
        decreases n - i,
    {
        if !char_matches(a.get_char(i), b.get_char(i)) {
            return false;
        }
        i = i + 1;
    }
    true
}

pub open spec fn is_digit(c: char) -> bool {
    '0' <= c <= '9'
}

pub open spec fn digit_value(c: char) -> nat {
    (c as u32 - '0' as u32) as nat
}

/// The number that a string of decimal digits writes, most significant first.
pub open spec fn digits_value(s: Seq<char>) -> nat
    decreases s.len(),
{
    if s.len() == 0 {
        0
    } else {
        digits_value(s.drop_last()) * 10 + digit_value(s.last())
    }
}

/// The digits of a number text, after an optional leading `+`.
pub open spec fn unsigned_digits(s: Seq<char>) -> Seq<char> {
    if s.len() > 0 && s[0] == '+' {
        s.drop_first()
    } else {
        s
    }
}

/// A whole number of seconds, written in decimal with an optional `+`, that fits in
/// a `u32`; `None` for any other text.
pub open spec fn spec_parse_seconds(s: Seq<char>) -> Option<u32> {
    let d = unsigned_digits(s);
    if d.len() > 0 && (forall|i: int| 0 <= i < d.len() ==> is_digit(#[trigger] d[i]))
        && digits_value(d) <= u32::MAX {
        Some(digits_value(d) as u32)
    } else {
        None
    }
}

proof fn lemma_digits_value_grows(s: Seq<char>, j: int)
    requires
        0 <= j <= s.len(),
        forall|i: int| 0 <= i < s.len() ==> is_digit(#[trigger] s[i]),
    ensures
        digits_value(s.subrange(0, j)) <= digits_value(s),
    decreases s.len(),
{
    if j < s.len() {
        let t = s.drop_last();
        assert(t.subrange(0, j) == s.subrange(0, j));
        assert forall|i: int| 0 <= i < t.len() implies is_digit(#[trigger] t[i]) by {
            assert(t[i] == s[i]);
        }
        lemma_digits_value_grows(t, j);
    } else {
        assert(s.subrange(0, j) == s);
    }
}

/// Reads a number of seconds as `u32`'s `from_str` does: decimal digits after an
/// optional `+`, and no more than `u32::MAX`.
pub fn parse_seconds(text: &str) -> (r: Option<u32>)
    ensures
        r == spec_parse_seconds(text@),
{
    let n = text.unicode_len();
    let mut start: usize = 0;
    if n > 0 && text.get_char(0) == '+' {
        start = 1;
    }
    let ghost d = unsigned_digits(text@);
    assert(d == text@.subrange(start as int, n as int));
    if start == n {
        return None;
    }
    let mut value: u64 = 0;
    let mut i: usize = start;
    while i < n
        invariant
            start <= i <= n,
            n == text@.len(),
            d == text@.subrange(start as int, n as int),
            d == unsigned_digits(text@),
            forall|j: int| 0 <= j < i - start ==> is_digit(#[trigger] d[j]),
            value == digits_value(d.subrange(0, i - start)),
            value <= u32::MAX,
        decreases n - i,
    {
        let c = text.get_char(i);
        let ghost k = i - start;
        let ghost p = d.subrange(0, k + 1);
        proof {
            assert(d[k] == c);
            assert(p.drop_last() == d.subrange(0, k));
            assert(p.last() == c);
        }
        if c < '0' || c > '9' {
            assert(!is_digit(d[k]));
            return None;
        }
        let digit = (c as u32 - '0' as u32) as u64;
        value = value * 10 + digit;
        assert(value == digits_value(p));
        if value > 4294967295 {
            proof {
                if forall|j: int| 0 <= j < d.len() ==> is_digit(#[trigger] d[j]) {
                    lemma_digits_value_grows(d, k + 1);
                }
            }
            return None;
        }
        i = i + 1;
    }
    assert(d.subrange(0, i - start) == d);
    Some(value as u32)
}

/// The name of the target-group attribute that holds the deregistration delay.
pub const DELAY_KEY: &'static str = "deregistration_delay.timeout_seconds";

/// One attribute of a target group, as the load balancer describes it.
pub struct TargetGroupAttribute {
    pub key: Option<String>,
    pub value: Option<String>,
}

/// Why a target group's deregistration delay could not be read.
#[derive(Clone, Copy, Debug, PartialEq, Eq, Structural)]
pub enum ConfigurationError {
    /// The description of the target group held no attribute list at all.
    NoAttributes,
    /// Not exactly one attribute names the delay and carries a value.
    DelayNotUnique { found: usize },
    /// The one value found is not a whole number of seconds that fits in `u32`.
    InvalidTimeout,
}

/// Whether an attribute names the deregistration delay (in any ASCII case) and
/// carries a value.
pub open spec fn names_delay(a: TargetGroupAttribute) -> bool {
    &&& a.key is Some
    &&& spec_eq_ignore_ascii_case(a.key->0@, DELAY_KEY@)
    &&& a.value is Some
}

/// The values of the attributes that name the deregistration delay, in order.
pub open spec fn delay_values(attrs: Seq<TargetGroupAttribute>) -> Seq<Seq<char>>
    decreases attrs.len(),
{
    if attrs.len() == 0 {
        Seq::empty()
    } else {
        let rest = delay_values(attrs.drop_last());
        if names_delay(attrs.last()) {
            rest.push(attrs.last().value->0@)
        } else {
            rest
        }
    }
}

/// The deregistration delay that a target group's attribute list gives.
pub open spec fn spec_deregistration_timeout(attrs: Option<Seq<TargetGroupAttribute>>) -> Result<
    u32,
    ConfigurationError,
> {
    match attrs {
        None => Err(ConfigurationError::NoAttributes),
        Some(a) => {
            let found = delay_values(a);
            if found.len() != 1 {
                Err(ConfigurationError::DelayNotUnique { found: found.len() as usize })
            } else {
                match spec_parse_seconds(found[0]) {
                    Some(t) => Ok(t),
                    None => Err(ConfigurationError::InvalidTimeout),
                }
            }
        }
    }
}

pub open spec fn attrs_view(attrs: Option<&Vec<TargetGroupAttribute>>) -> Option<Seq<TargetGroupAttribute>> {
    match attrs {
        Some(v) => Some(v@),
        None => None,
    }
}

proof fn lemma_delay_values_len(attrs: Seq<TargetGroupAttribute>)
    ensures
        delay_values(attrs).len() <= attrs.len(),
    decreases attrs.len(),
{
    if attrs.len() > 0 {
        lemma_delay_values_len(attrs.drop_last());
    }
}

/// Reads the deregistration delay from a target group's attributes: the one value
/// whose key is the delay's name, ignoring ASCII case, read as seconds.
pub fn deregistration_timeout(attributes: Option<&Vec<TargetGroupAttribute>>) -> (r: Result<
    u32,
    ConfigurationError,
>)
    ensures
        r == spec_deregistration_timeout(attrs_view(attributes)),
{
    let attrs = match attributes {
        None => {
            return Err(ConfigurationError::NoAttributes);
        },
        Some(a) => a,
    };
    let mut found: usize = 0;
    let mut first: Option<&String> = None;
    let mut i: usize = 0;
    while i < attrs.len()
        invariant
            i <= attrs@.len(),
            found == delay_values(attrs@.subrange(0, i as int)).len(),
            found <= i,
            found >= 1 ==> (first is Some && first->0@ == delay_values(attrs@.subrange(0, i as int))[0]),
        decreases attrs.len() - i,
    {
        let a = &attrs[i];
        proof {
            let p = attrs@.subrange(0, i + 1);
            assert(p.drop_last() == attrs@.subrange(0, i as int));
            assert(p.last() == attrs@[i as int]);
        }
        let matched = match (&a.key, &a.value) {
            (Some(k), Some(v)) => {
                if eq_ignore_ascii_case(k.as_str(), DELAY_KEY) {
                    if found == 0 {
                        first = Some(v);
                    }
                    true
                } else {
                    false
                }
            },
            _ => false,
        };
        if matched {
            found = found + 1;
        }
        i = i + 1;
    }
    assert(attrs@.subrange(0, i as int) == attrs@);
    if found != 1 {
        return Err(ConfigurationError::DelayNotUnique { found });
    }
    match first {
        Some(v) => match parse_seconds(v.as_str()) {
            Some(t) => Ok(t),
            None => Err(ConfigurationError::InvalidTimeout),
        },
        None => Err(ConfigurationError::InvalidTimeout),
    }
}

} // verus!
