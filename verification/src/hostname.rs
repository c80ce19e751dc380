//! Bind-address hostnames rewritten into connectable URL hostnames.

use vstd::prelude::*;
use vstd::string::StrSliceExecFns;
use vstd::string::StringExecFns;

verus! {

/// The URL hostname a bind-address hostname stands for: the wildcard
/// addresses `0.0.0.0` and `::` become loopback targets, and a bare IPv6
/// address is wrapped in brackets.
pub open spec fn normalized_hostname(h: Seq<char>) -> Seq<char> {
    if h == "0.0.0.0"@ {
        "127.0.0.1"@
    } else if h == "::"@ {
        "[::1]"@
    } else if h.contains(':') && !(h.len() > 0 && h[0] == '[') {
        seq!['['] + h + seq![']']
    } else {
        h
    }
}

/// Whether two string slices spell the same characters.
fn str_eq(s: &str, t: &str) -> (r: bool)
    ensures
        r == (s@ == t@),
{
    let n = s.unicode_len();
    let m = t.unicode_len();
    if n != m {
        return false;
    }
    let mut i: usize = 0;
    while i < n
        invariant
            i <= n,
            n == s@.len(),
            m == t@.len(),
            n == m,
            forall|j: int| 0 <= j < i ==> s@[j] == t@[j],
        decreases n - i,
    {
        if s.get_char(i) != t.get_char(i) {
            return false;
        }
        i = i + 1;
    }
    proof {
        assert(s@ =~= t@);
    }
    true
}

/// Whether `s` holds a colon.
fn contains_colon(s: &str) -> (r: bool)
    ensures
        r == s@.contains(':'),
{
    let n = s.unicode_len();
    let mut i: usize = 0;
    while i < n
        invariant
            i <= n,
            n == s@.len(),
            forall|j: int| 0 <= j < i ==> s@[j] != ':',
        decreases n - i,
    {
        if s.get_char(i) == ':' {
            return true;
        }
        i = i + 1;
    }
    false
}

/// Convert a bind-address hostname to a valid URL hostname for connection:
/// `0.0.0.0` and `::` are wildcard bind addresses, not connect targets, and
/// an unbracketed IPv6 address gets its brackets.
pub fn normalize_hostname_for_url(hostname: &str) -> (r: String)
    ensures
        r@ == normalized_hostname(hostname@),
{
    if str_eq(hostname, "0.0.0.0") {
        return "127.0.0.1".to_owned();
    }
    if str_eq(hostname, "::") {
        return "[::1]".to_owned();
    }
    let has_colon = contains_colon(hostname);
    let starts_bracketed = if hostname.unicode_len() > 0 {
        hostname.get_char(0) == '['
    } else {
        false
    };
    if has_colon && !starts_bracketed {
        let r = String::from_str("[").concat(hostname).concat("]");
        proof {
            reveal_strlit("[");
            reveal_strlit("]");
            assert(r@ =~= seq!['['] + hostname@ + seq![']']);
        }
        return r;
    }
    hostname.to_owned()
}

} // verus!
