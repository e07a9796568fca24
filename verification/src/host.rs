//! Hostname resolution for the email subject.
//!
//! Some platforms answer with a generic default (`mac`, or a very short
//! name); callers with a platform-specific way to a better name use
//! [`is_generic_hostname`] to decide whether to look further.

use vstd::prelude::*;
use vstd::string::StringSliceAdditionalSpecFns;

verus! {

/// Relies on `whoami::hostname`: the machine's hostname, where the platform
/// gives one. The result depends on the machine, so nothing is promised of
/// it.
#[verifier::external_body]
fn machine_hostname() -> (r: Option<String>) {
    whoami::hostname().ok()
}

/// The lowercase form of an ASCII letter; any other character stands as it
/// is.
pub open spec fn ascii_lower(c: char) -> char {
    if 65 <= c as u32 <= 90 {
        ((c as u32 + 32) as u8) as char
    } else {
        c
    }
}

/// Equality up to ASCII case.
pub open spec fn eq_ignore_ascii_case_text(a: Seq<char>, b: Seq<char>) -> bool {
    a.len() == b.len() && forall|i: int|
        0 <= i < a.len() ==> ascii_lower(a[i]) == ascii_lower(b[i])
}

fn eq_ignore_case(s: &str, t: &str) -> (r: bool)
    ensures
        r == eq_ignore_ascii_case_text(s@, t@),
{
    let n = s.unicode_len();
    if n != t.unicode_len() {
        return false;
    }
    let mut i: usize = 0;
    while i < n
        invariant
            i <= n,
            n == s@.len(),
            n == t@.len(),
            forall|j: int| 0 <= j < i ==> ascii_lower(s@[j]) == ascii_lower(t@[j]),
        decreases n - i,
    {
        let a = s.get_char(i) as u32;
        let b = t.get_char(i) as u32;
        let la = if a >= 65 && a <= 90 {
            a + 32
        } else {
            a
        };
        let lb = if b >= 65 && b <= 90 {
            b + 32
        } else {
            b
        };
        if la != lb {
            return false;
        }
        i = i + 1;
    }
    true
}

/// A hostname too generic to identify the machine: at most four bytes, or
/// `mac` or `macbook` up to ASCII case.
pub open spec fn generic_hostname_spec(s: &str) -> bool {
    s.spec_bytes().len() as usize <= 4 || eq_ignore_ascii_case_text(s@, "mac"@)
        || eq_ignore_ascii_case_text(s@, "macbook"@)
}

/// Whether the hostname is a generic default worth refining.
pub fn is_generic_hostname(name: &str) -> (r: bool)
    ensures
        r == generic_hostname_spec(name),
{
    name.len() <= 4 || eq_ignore_case(name, "mac") || eq_ignore_case(name, "macbook")
}

/// The hostname the subject shows, given what the platform answered:
/// the answer itself, or `unknown` where there was none.
pub fn hostname_or_unknown(h: Option<String>) -> (r: String)
    ensures
        match h {
            Some(s) => r@ == s@,
            None => r@ == "unknown"@,
        },
{
    match h {
        Some(s) => s,
        None => "unknown".to_owned(),
    }
}

/// The machine's hostname, or `unknown` where the platform gives none.
pub fn descriptive_hostname() -> (r: String) {
    hostname_or_unknown(machine_hostname())
}

} // verus!
