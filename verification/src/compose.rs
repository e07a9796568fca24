//! Composition of the completion email: subject line, plain and HTML bodies,
//! and the fixed retry policy for sending it.

use vstd::prelude::*;
use vstd::string::StringExecFns;
use crate::text::{
    signed_decimal_text, decimal_i32, push_char, str_chars, chars_to_string, ws_tokens,
};

verus! {

/// A character as it appears inside an HTML body.
pub open spec fn escape_char(c: char) -> Seq<char> {
    if c == '&' {
        "&amp;"@
    } else if c == '<' {
        "&lt;"@
    } else if c == '>' {
        "&gt;"@
    } else if c == '"' {
        "&quot;"@
    } else if c == '\'' {
        "&#39;"@
    } else {
        seq![c]
    }
}

/// `s` with every markup-significant character replaced by its entity.
pub open spec fn html_escape_text(s: Seq<char>) -> Seq<char>
    decreases s.len(),
{
    if s.len() == 0 {
        Seq::empty()
    } else {
        html_escape_text(s.drop_last()) + escape_char(s.last())
    }
}

/// Escape a string for inclusion in an HTML body.
pub fn html_escape(s: &str) -> (r: String)
    ensures
        r@ == html_escape_text(s@),
{
    let n = s.unicode_len();
    let mut out = String::new();
    let mut i: usize = 0;
    while i < n
        invariant
            i <= n,
            n == s@.len(),
            out@ == html_escape_text(s@.take(i as int)),
        decreases n - i,
    {
        let c = s.get_char(i);
        if c == '&' {
            out.append("&amp;");
        } else if c == '<' {
            out.append("&lt;");
        } else if c == '>' {
            out.append("&gt;");
        } else if c == '"' {
            out.append("&quot;");
        } else if c == '\'' {
            out.append("&#39;");
        } else {
            push_char(&mut out, c);
        }
        proof {
            assert(s@.take(i + 1).drop_last() =~= s@.take(i as int));
            assert(s@.take(i + 1).last() == s@[i as int]);
            assert(out@ =~= html_escape_text(s@.take(i + 1)));
        }
        i = i + 1;
    }
    proof {
        assert(s@.take(n as int) =~= s@);
    }
    out
}

/// The subject's optional tag: a space and the caller-supplied identifier.
pub open spec fn id_text(id: Option<&str>) -> Seq<char> {
    match id {
        Some(s) => " "@ + s@,
        None => Seq::empty(),
    }
}

/// The completion email's subject line.
pub open spec fn subject_text(
    host: Seq<char>,
    id: Seq<char>,
    ref_name: Seq<char>,
    tstring: Seq<char>,
) -> Seq<char> {
    (if host.len() == 0 {
        Seq::<char>::empty()
    } else {
        "["@ + host + "]"@
    }) + id + ": '"@ + ref_name + "' completed ["@ + tstring + "]"@
}

/// Build the subject line: the bracketed host (dropped when the host is
/// unknown), the optional identifier, the command's name, and a timestamp.
pub fn build_email_subject(host: &str, id: Option<&str>, ref_name: &str, tstring: &str) -> (r:
    String)
    ensures
        r@ == subject_text(host@, id_text(id), ref_name@, tstring@),
{
    let mut out = String::new();
    if !host.is_empty() {
        out.append("[");
        out.append(host);
        out.append("]");
    }
    match id {
        Some(s) => {
            out.append(" ");
            out.append(s);
        },
        None => {},
    }
    out.append(": '");
    out.append(ref_name);
    out.append("' completed [");
    out.append(tstring);
    out.append("]");
    proof {
        assert(out@ =~= subject_text(host@, id_text(id), ref_name@, tstring@));
    }
    out
}

/// Relies on chrono's `Local::now` and its strftime-style `format`: the
/// pattern `%m-%d-%y@%H:%M` renders five zero-padded two-digit fields joined
/// by fixed punctuation, 14 characters in all.
#[verifier::external_body]
fn local_stamp() -> (r: String)
    ensures
        r@.len() == 14,
{
    chrono::Local::now().format("%m-%d-%y@%H:%M").to_string()
}

/// The subject line for a run finishing now: a `build_email_subject` whose
/// timestamp is the current local time.
pub fn email_subject_now(host: &str, id: Option<&str>, ref_name: &str) -> (r: String)
    ensures
        exists|t: Seq<char>|
            t.len() == 14 && r@ == subject_text(host@, id_text(id), ref_name@, t),
{
    let stamp = local_stamp();
    let r = build_email_subject(host, id, ref_name, stamp.as_str());
    proof {
        assert(stamp@.len() == 14 && r@ == subject_text(host@, id_text(id), ref_name@, stamp@));
    }
    r
}

/// The plain-text body: one labelled line per fact, with the captured output
/// appended after a blank line when it is to be sent.
pub open spec fn plain_report_text(
    cmd: Seq<char>,
    runtime: Seq<char>,
    status: int,
    location: Seq<char>,
    output: Option<Seq<char>>,
) -> Seq<char> {
    "Arguments: "@ + cmd + "\nRuntime: "@ + runtime + "\nReturn value: "@ + signed_decimal_text(
        status,
    ) + "\nLocation: "@ + location + (match output {
        Some(o) => "\n\nOutput:\n"@ + o,
        None => Seq::<char>::empty(),
    })
}

/// Compose the plain-text body of the completion email.
pub fn compose_plain_body(
    cmd: &str,
    runtime: &str,
    status_code: i32,
    location: &str,
    output: Option<&str>,
) -> (r: String)
    ensures
        r@ == plain_report_text(
            cmd@,
            runtime@,
            status_code as int,
            location@,
            match output {
                Some(o) => Some(o@),
                None => None,
            },
        ),
{
    let mut out = String::new();
    out.append("Arguments: ");
    out.append(cmd);
    out.append("\nRuntime: ");
    out.append(runtime);
    out.append("\nReturn value: ");
    let st = decimal_i32(status_code);
    out.append(st.as_str());
    out.append("\nLocation: ");
    out.append(location);
    match output {
        Some(o) => {
            out.append("\n\nOutput:\n");
            out.append(o);
        },
        None => {},
    }
    proof {
        assert(out@ =~= plain_report_text(
            cmd@,
            runtime@,
            status_code as int,
            location@,
            match output {
                Some(o) => Some(o@),
                None => None,
            },
        ));
    }
    out
}

/// The HTML body: the same labelled lines inside a `pre` block, with the
/// free-form fields escaped.
pub open spec fn html_report_text(
    cmd: Seq<char>,
    runtime: Seq<char>,
    status: int,
    location: Seq<char>,
    output: Option<Seq<char>>,
) -> Seq<char> {
    "<pre><b>Arguments</b>: "@ + html_escape_text(cmd) + "<br />\n<b>Runtime</b>: "@ + runtime
        + "<br />\n<b>Return value</b>: "@ + signed_decimal_text(status)
        + "<br />\n<b>Location</b>: "@ + html_escape_text(location) + (match output {
        Some(o) => "<br />\n<b>Output:</b><br /><pre>"@ + html_escape_text(o) + "</pre>"@,
        None => Seq::<char>::empty(),
    }) + "</pre>"@
}

/// Compose the HTML body of the completion email.
pub fn compose_html_body(
    cmd: &str,
    runtime: &str,
    status_code: i32,
    location: &str,
    output: Option<&str>,
) -> (r: String)
    ensures
        r@ == html_report_text(
            cmd@,
            runtime@,
            status_code as int,
            location@,
            match output {
                Some(o) => Some(o@),
                None => None,
            },
        ),
{
    let mut out = String::new();
    out.append("<pre><b>Arguments</b>: ");
    let esc_cmd = html_escape(cmd);
    out.append(esc_cmd.as_str());
    out.append("<br />\n<b>Runtime</b>: ");
    out.append(runtime);
    out.append("<br />\n<b>Return value</b>: ");
    let st = decimal_i32(status_code);
    out.append(st.as_str());
    out.append("<br />\n<b>Location</b>: ");
    let esc_loc = html_escape(location);
    out.append(esc_loc.as_str());
    match output {
        Some(o) => {
            out.append("<br />\n<b>Output:</b><br /><pre>");
            let esc_out = html_escape(o);
            out.append(esc_out.as_str());
            out.append("</pre>");
        },
        None => {},
    }
    out.append("</pre>");
    proof {
        assert(out@ =~= html_report_text(
            cmd@,
            runtime@,
            status_code as int,
            location@,
            match output {
                Some(o) => Some(o@),
                None => None,
            },
        ));
    }
    out
}

/// How many times sending is attempted before giving up.
pub const SEND_ATTEMPTS: u32 = 3;

/// The fixed pause between attempts, in seconds.
pub const SEND_RETRY_DELAY_SECS: u64 = 10;

/// After the 0-based attempt `attempt` failed: whether another attempt is
/// owed (after the fixed delay), or the last failure is final.
pub fn retry_after_failure(attempt: u32) -> (r: bool)
    ensures
        r == (attempt + 1 < SEND_ATTEMPTS),
{
    attempt < SEND_ATTEMPTS - 1
}

/// The command words joined by single spaces; a lone word stands as itself.
pub open spec fn join_spaced(parts: Seq<Seq<char>>) -> Seq<char>
    decreases parts.len(),
{
    if parts.len() == 0 {
        Seq::empty()
    } else if parts.len() == 1 {
        parts[0]
    } else {
        join_spaced(parts.drop_last()) + seq![' '] + parts.last()
    }
}

/// The single command string handed to the shell: the command words joined
/// by single spaces.
pub fn command_string(parts: &Vec<String>) -> (r: String)
    ensures
        r@ == join_spaced(parts.deep_view()),
{
    let ghost dv = parts.deep_view();
    let mut out = String::new();
    let mut i: usize = 0;
    while i < parts.len()
        invariant
            i <= parts@.len(),
            dv == parts.deep_view(),
            dv.len() == parts@.len(),
            forall|j: int| 0 <= j < parts@.len() ==> dv[j] == #[trigger] parts@[j]@,
            out@ == join_spaced(dv.take(i as int)),
        decreases parts@.len() - i,
    {
        if i > 0 {
            out.append(" ");
            proof {
                reveal_strlit(" ");
            }
        }
        out.append(parts[i].as_str());
        proof {
            assert(dv.take(i + 1).drop_last() =~= dv.take(i as int));
            assert(dv.take(i + 1).last() == dv[i as int]);
            assert(out@ =~= join_spaced(dv.take(i + 1)));
        }
        i = i + 1;
    }
    proof {
        assert(dv.take(parts@.len() as int) =~= dv);
    }
    out
}

/// Whether an address can be a mail target at all: it holds an `@`.
pub fn address_has_at(addr: &str) -> (r: bool)
    ensures
        r == addr@.contains('@'),
{
    let n = addr.unicode_len();
    let mut i: usize = 0;
    while i < n
        invariant
            i <= n,
            n == addr@.len(),
            forall|j: int| 0 <= j < i ==> addr@[j] != '@',
        decreases n - i,
    {
        if addr.get_char(i) == '@' {
            proof {
                assert(addr@[i as int] == '@');
            }
            return true;
        }
        i = i + 1;
    }
    false
}

/// The word that names the run: the command's first whitespace-separated
/// token, or `command` when there is none.
pub open spec fn ref_name_text(s: Seq<char>) -> Seq<char> {
    if ws_tokens(s).len() == 0 {
        "command"@
    } else {
        ws_tokens(s)[0]
    }
}

/// The name the subject line gives the run.
pub fn command_ref_name(cmd: &str) -> (r: String)
    ensures
        r@ == ref_name_text(cmd@),
{
    let chars = str_chars(cmd);
    proof {
        assert(chars@.skip(0) =~= cmd@);
    }
    match crate::text::next_token(chars.as_slice(), 0) {
        Some(t) => chars_to_string(vstd::slice::slice_subrange(chars.as_slice(), t.0, t.1)),
        None => "command".to_owned(),
    }
}

} // verus!
