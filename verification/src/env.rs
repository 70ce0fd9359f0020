//! The deployment environment and the node's own identity.

use vstd::prelude::*;
use crate::text::{chars_of, push_decimal, push_str, same_text, string_of, decimal};

verus! {

/// Where the node runs.
#[derive(Clone, Copy, Debug, PartialEq, Eq)]
pub enum Environment {
    Prod,
    Dev,
}

/// The name of an environment as the `ENV` variable spells it.
pub open spec fn environment_name(e: Environment) -> Seq<char> {
    match e {
        Environment::Prod => "production"@,
        Environment::Dev => "development"@,
    }
}

impl Environment {
    /// The environment that `name` spells, if any.
    pub fn from_name(name: &str) -> (r: Option<Environment>)
        ensures
            r == (if name@ == "production"@ {
                Some(Environment::Prod)
            } else if name@ == "development"@ {
                Some(Environment::Dev)
            } else {
                None
            }),
    {
        let n = chars_of(name);
        if same_text(&n, &chars_of("production")) {
            Some(Environment::Prod)
        } else if same_text(&n, &chars_of("development")) {
            Some(Environment::Dev)
        } else {
            None
        }
    }

    /// The name of the environment.
    pub fn name(&self) -> (s: String)
        ensures
            s@ == environment_name(*self),
    {
        match self {
            Environment::Prod => string_of(&chars_of("production")),
            Environment::Dev => string_of(&chars_of("development")),
        }
    }
}

/// The name and the reachable address of this node.
#[derive(Clone)]
pub struct State {
    pub hostname: String,
    pub reacheable_url: String,
}

/// The address at which the node can be reached: `<hostname>.<namespace>`
/// in production, `0.0.0.0:<port>` in development.
pub open spec fn own_url_text(env: Environment, hostname: Seq<char>, namespace: Seq<char>, port: u16) -> Seq<char> {
    match env {
        Environment::Prod => hostname + "."@ + namespace,
        Environment::Dev => "0.0.0.0"@ + ":"@ + decimal(port as nat),
    }
}

/// The address at which the node can be reached.
pub fn own_url(env: Environment, hostname: &str, namespace: &str, port: u16) -> (url: String)
    ensures
        url@ == own_url_text(env, hostname@, namespace@, port),
{
    let mut out: Vec<char> = Vec::new();
    match env {
        Environment::Prod => {
            push_str(&mut out, hostname);
            push_str(&mut out, ".");
            push_str(&mut out, namespace);
            assert(out@ =~= hostname@ + "."@ + namespace@);
        },
        Environment::Dev => {
            push_str(&mut out, "0.0.0.0");
            push_str(&mut out, ":");
            push_decimal(&mut out, port as u64);
            assert(out@ =~= "0.0.0.0"@ + ":"@ + decimal(port as nat));
        },
    }
    string_of(&out)
}

/// The value of a text of decimal digits (zero for the empty text).
pub open spec fn digits_value(d: Seq<char>) -> nat
    decreases d.len(),
{
    if d.len() == 0 {
        0
    } else {
        digits_value(d.drop_last()) * 10 + ((d.last() as int) - ('0' as int)) as nat
    }
}

/// Every character is an ASCII digit.
pub open spec fn all_digits(d: Seq<char>) -> bool {
    forall|i: int| 0 <= i < d.len() ==> '0' <= #[trigger] d[i] <= '9'
}

/// The port that a text names, as `str::parse::<u16>` reads it: an optional
/// `+`, then one or more ASCII digits, of value at most 65535.
pub open spec fn port_of(text: Seq<char>) -> Option<u16> {
    let d = if text.len() > 0 && text[0] == '+' {
        text.drop_first()
    } else {
        text
    };
    if d.len() > 0 && all_digits(d) && digits_value(d) <= 65535 {
        Some(digits_value(d) as u16)
    } else {
        None
    }
}

/// A longer prefix of digits is worth at least as much.
proof fn lemma_digits_grow(d: Seq<char>, i: int, j: int)
    requires
        all_digits(d),
        0 <= i <= j <= d.len(),
    ensures
        digits_value(d.take(i)) <= digits_value(d.take(j)),
    decreases j - i,
{
    if i < j {
        lemma_digits_grow(d, i, j - 1);
        assert(d.take(j).drop_last() =~= d.take(j - 1));
        assert(d.take(j).last() == d[j - 1]);
    }
}

/// The port that `text` names, if any (the reading of the `PORT_HTTP` and
/// `PORT_TCP` variables).
pub fn parse_port(text: &str) -> (r: Option<u16>)
    ensures
        r == port_of(text@),
{
    let t = chars_of(text);
    let start: usize = if t.len() > 0 && t[0] == '+' {
        1
    } else {
        0
    };
    let ghost d = t@.skip(start as int);
    assert(d == (if t@.len() > 0 && t@[0] == '+' {
        t@.drop_first()
    } else {
        t@
    }));
    if start >= t.len() {
        return None;
    }
    let mut acc: u32 = 0;
    let mut i: usize = start;
    assert(port_of(text@) == (if d.len() > 0 && all_digits(d) && digits_value(d) <= 65535 {
        Some(digits_value(d) as u16)
    } else {
        None
    }));
    assert(d.take(0) =~= Seq::<char>::empty());
    while i < t.len()
        invariant
            port_of(text@) == (if d.len() > 0 && all_digits(d) && digits_value(d) <= 65535 {
                Some(digits_value(d) as u16)
            } else {
                None
            }),
            d.len() == t.len() - start,
            start < t.len(),
            start <= i <= t.len(),
            d == t@.skip(start as int),
            all_digits(d.take(i - start)),
            acc as nat == digits_value(d.take(i - start)),
            acc <= 65535,
        decreases t.len() - i,
    {
        let c = t[i];
        assert(d[i - start] == c);
        assert(d.take(i - start + 1).drop_last() =~= d.take(i - start));
        assert(d.take(i - start + 1).last() == c);
        if c < '0' || c > '9' {
            assert(!all_digits(d)) by {
                assert(d[i - start] == c);
            }
            return None;
        }
        let v = (c as u32) - ('0' as u32);
        let next = acc * 10 + v;
        if next > 65535 {
            assert(digits_value(d.take(i - start + 1)) == next);
            proof {
                if all_digits(d) {
                    lemma_digits_grow(d, i - start + 1, d.len() as int);
                    assert(d.take(d.len() as int) =~= d);
                }
            }
            return None;
        }
        acc = next;
        i = i + 1;
    }
    assert(d.take(d.len() as int) =~= d);
    Some(acc as u16)
}

} // verus!
