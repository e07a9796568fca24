use notify::compose::{
    build_email_subject, command_ref_name, command_string, compose_html_body, compose_plain_body,
    email_subject_now, html_escape, retry_after_failure,
};
use notify::duration::format_duration;
use notify::text::decimal_i32;

#[test]
fn forty_five_seconds() {
    assert_eq!(format_duration(45), "00:00:45");
}

#[test]
fn an_hour_a_minute_and_a_second() {
    assert_eq!(format_duration(3661), "01:01:01");
}

#[test]
fn a_day_and_an_hour() {
    assert_eq!(format_duration(90000), "1d 01:00:00");
}

#[test]
fn many_days() {
    // 12 days, 13:46:40
    assert_eq!(format_duration(1_086_400), "12d 13:46:40");
}

#[test]
fn zero_seconds() {
    assert_eq!(format_duration(0), "00:00:00");
}

#[test]
fn html_escape_replaces_markup() {
    assert_eq!(html_escape("a<b>&\"c'"), "a&lt;b&gt;&amp;&quot;c&#39;");
    assert_eq!(html_escape("plain"), "plain");
    assert_eq!(html_escape(""), "");
    assert_eq!(html_escape("&&"), "&amp;&amp;");
}

#[test]
fn status_codes_render_in_decimal() {
    assert_eq!(decimal_i32(0), "0");
    assert_eq!(decimal_i32(127), "127");
    assert_eq!(decimal_i32(-1), "-1");
    assert_eq!(decimal_i32(i32::MIN), "-2147483648");
    assert_eq!(decimal_i32(i32::MAX), "2147483647");
}

#[test]
fn subject_holds_host_id_name_and_stamp() {
    let s = build_email_subject("box", Some("job7"), "make", "01-02-26@03:04");
    assert_eq!(s, "[box] job7: 'make' completed [01-02-26@03:04]");
}

#[test]
fn subject_without_host_drops_the_brackets() {
    let s = build_email_subject("", None, "ls", "01-02-26@03:04");
    assert_eq!(s, ": 'ls' completed [01-02-26@03:04]");
}

#[test]
fn subject_now_ends_with_a_fourteen_character_stamp() {
    let s = email_subject_now("h", None, "ls");
    let prefix = "[h]: 'ls' completed [";
    assert!(s.starts_with(prefix));
    assert!(s.ends_with(']'));
    assert_eq!(s.len(), prefix.len() + 14 + 1);
}

#[test]
fn plain_body_lists_the_facts() {
    let b = compose_plain_body("ls -l", "00:00:45", 0, "/tmp", None);
    assert_eq!(b, "Arguments: ls -l\nRuntime: 00:00:45\nReturn value: 0\nLocation: /tmp");
}

#[test]
fn plain_body_appends_the_output() {
    let b = compose_plain_body("ls", "00:00:01", 2, "/", Some("oops"));
    assert_eq!(b, "Arguments: ls\nRuntime: 00:00:01\nReturn value: 2\nLocation: /\n\nOutput:\noops");
}

#[test]
fn html_body_escapes_the_free_fields() {
    let b = compose_html_body("a<b", "00:00:01", -1, "/x&y", None);
    assert_eq!(
        b,
        "<pre><b>Arguments</b>: a&lt;b<br />\n<b>Runtime</b>: 00:00:01<br />\n<b>Return value</b>: -1<br />\n<b>Location</b>: /x&amp;y</pre>"
    );
}

#[test]
fn html_body_wraps_the_output_in_pre() {
    let b = compose_html_body("ls", "00:00:01", 0, "/", Some("1<2"));
    assert_eq!(
        b,
        "<pre><b>Arguments</b>: ls<br />\n<b>Runtime</b>: 00:00:01<br />\n<b>Return value</b>: 0<br />\n<b>Location</b>: /<br />\n<b>Output:</b><br /><pre>1&lt;2</pre></pre>"
    );
}

#[test]
fn three_attempts_with_fixed_delay() {
    assert!(retry_after_failure(0));
    assert!(retry_after_failure(1));
    assert!(!retry_after_failure(2));
    assert!(!retry_after_failure(100));
}

#[test]
fn command_words_join_with_spaces() {
    let parts = vec!["ls".to_string(), "-l".to_string(), "/tmp".to_string()];
    assert_eq!(command_string(&parts), "ls -l /tmp");
    let single = vec!["du -sh .".to_string()];
    assert_eq!(command_string(&single), "du -sh .");
    let none: Vec<String> = vec![];
    assert_eq!(command_string(&none), "");
}

#[test]
fn ref_name_is_the_first_word() {
    assert_eq!(command_ref_name("ls -lhtr /tmp"), "ls");
    assert_eq!(command_ref_name("  du  -sh"), "du");
    assert_eq!(command_ref_name(""), "command");
    assert_eq!(command_ref_name("   "), "command");
}
