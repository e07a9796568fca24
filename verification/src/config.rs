//! The configuration model: SMTP server settings and the named recipients,
//! with the decisions the interactive flows rest on and the parser for the
//! legacy key-value format.

use vstd::prelude::*;
use crate::text::{
    parse_unsigned, parse_bounded, trim_text, trim_bounds, ws_tokens, next_token, str_chars,
    chars_to_string, split_on, find_char, lemma_sep_prefix_len, lemma_split_on_nonempty,
};

verus! {

/// SMTP server settings. The password is either stored literally or named by
/// the environment variable that holds it.
pub struct ServerConfig {
    pub server: Option<String>,
    pub port: Option<u16>,
    pub from_address: Option<String>,
    pub password: Option<String>,
    pub password_env: Option<String>,
}

/// A named recipient.
pub struct User {
    pub name: String,
    pub email: String,
}

/// The whole configuration: server settings and the recipients to choose
/// from.
pub struct Config {
    pub server: ServerConfig,
    pub users: Vec<User>,
}

#[verifier::ext_equal]
pub struct ServerConfigView {
    pub server: Option<Seq<char>>,
    pub port: Option<u16>,
    pub from_address: Option<Seq<char>>,
    pub password: Option<Seq<char>>,
    pub password_env: Option<Seq<char>>,
}

#[verifier::ext_equal]
pub struct UserView {
    pub name: Seq<char>,
    pub email: Seq<char>,
}

#[verifier::ext_equal]
pub struct ConfigView {
    pub server: ServerConfigView,
    pub users: Seq<UserView>,
}

pub open spec fn opt_str_view(o: Option<String>) -> Option<Seq<char>> {
    match o {
        Some(s) => Some(s@),
        None => None,
    }
}

impl View for ServerConfig {
    type V = ServerConfigView;

    open spec fn view(&self) -> ServerConfigView {
        ServerConfigView {
            server: opt_str_view(self.server),
            port: self.port,
            from_address: opt_str_view(self.from_address),
            password: opt_str_view(self.password),
            password_env: opt_str_view(self.password_env),
        }
    }
}

impl View for User {
    type V = UserView;

    open spec fn view(&self) -> UserView {
        UserView { name: self.name@, email: self.email@ }
    }
}

impl DeepView for User {
    type V = UserView;

    open spec fn deep_view(&self) -> UserView {
        self@
    }
}

impl View for Config {
    type V = ConfigView;

    open spec fn view(&self) -> ConfigView {
        ConfigView { server: self.server@, users: self.users.deep_view() }
    }
}

/// The configuration with nothing set.
pub open spec fn empty_config_view() -> ConfigView {
    ConfigView {
        server: ServerConfigView {
            server: None,
            port: None,
            from_address: None,
            password: None,
            password_env: None,
        },
        users: Seq::empty(),
    }
}

impl Config {
    pub fn new() -> (r: Config)
        ensures
            r@ == empty_config_view(),
    {
        let r = Config {
            server: ServerConfig {
                server: None,
                port: None,
                from_address: None,
                password: None,
                password_env: None,
            },
            users: Vec::new(),
        };
        proof {
            assert(r@.users =~= empty_config_view().users);
            assert(r@ =~= empty_config_view());
        }
        r
    }

    /// Set the email recorded for `name`, or record the pair at the end when
    /// the name is new. The first user of that name is the one updated.
    pub fn upsert_user(&mut self, name: &str, email: &str)
        ensures
            final(self)@.server == old(self)@.server,
            ({
                let users0 = old(self)@.users;
                let p = user_pos(users0, name@);
                if p >= 0 {
                    final(self)@.users == users0.update(
                        p,
                        UserView { name: users0[p].name, email: email@ },
                    )
                } else {
                    final(self)@.users == users0.push(UserView { name: name@, email: email@ })
                }
            }),
    {
        let ghost users0 = self@.users;
        let mut i: usize = 0;
        while i < self.users.len()
            invariant
                i <= self.users@.len(),
                *self == *old(self),
                users0 == old(self)@.users,
                forall|j: int| 0 <= j < i ==> users0[j].name != name@,
            decreases self.users@.len() - i,
        {
            proof {
                assert(users0[i as int] == self.users@[i as int]@);
            }
            if compare_str(&self.users[i].name, name) {
                let u = self.users.remove(i);
                self.users.insert(i, User { name: u.name, email: email.to_owned() });
                proof {
                    lemma_user_pos_found(users0, name@, i as int);
                    assert(self@.users =~= users0.update(
                        i as int,
                        UserView { name: users0[i as int].name, email: email@ },
                    ));
                }
                return ;
            }
            i = i + 1;
        }
        self.users.push(User { name: name.to_owned(), email: email.to_owned() });
        proof {
            lemma_user_pos_none(users0, name@);
            assert(self@.users =~= users0.push(UserView { name: name@, email: email@ }));
        }
    }
}

/// Whether a stored string equals the given one.
fn compare_str(a: &String, b: &str) -> (r: bool)
    ensures
        r == (a@ == b@),
{
    let b_owned = b.to_owned();
    *a == b_owned
}

/// The first position holding a user of the given name, or `-1`.
pub open spec fn user_pos(users: Seq<UserView>, name: Seq<char>) -> int
    decreases users.len(),
{
    if users.len() == 0 {
        -1
    } else if users[0].name == name {
        0
    } else {
        let r = user_pos(users.drop_first(), name);
        if r < 0 {
            -1
        } else {
            r + 1
        }
    }
}

pub proof fn lemma_user_pos_found(users: Seq<UserView>, name: Seq<char>, i: int)
    requires
        0 <= i < users.len(),
        users[i].name == name,
        forall|j: int| 0 <= j < i ==> users[j].name != name,
    ensures
        user_pos(users, name) == i,
    decreases i,
{
    if i > 0 {
        lemma_user_pos_found(users.drop_first(), name, i - 1);
    }
}

pub proof fn lemma_user_pos_none(users: Seq<UserView>, name: Seq<char>)
    requires
        forall|j: int| 0 <= j < users.len() ==> users[j].name != name,
    ensures
        user_pos(users, name) == -1,
    decreases users.len(),
{
    if users.len() > 0 {
        lemma_user_pos_none(users.drop_first(), name);
    }
}

/// A server setting the interactive setup still has to ask for.
#[derive(Clone, Copy, PartialEq, Eq, Structural, Debug)]
pub enum ServerField {
    Server,
    Port,
    FromAddress,
    Password,
}

/// The settings without a value, in the order they are prompted for. The
/// password counts as present when either its literal or the environment
/// variable naming it is set.
pub open spec fn missing_fields_spec(s: ServerConfigView) -> Seq<ServerField> {
    (if s.server is None {
        seq![ServerField::Server]
    } else {
        Seq::empty()
    }) + (if s.port is None {
        seq![ServerField::Port]
    } else {
        Seq::empty()
    }) + (if s.from_address is None {
        seq![ServerField::FromAddress]
    } else {
        Seq::empty()
    }) + (if s.password is None && s.password_env is None {
        seq![ServerField::Password]
    } else {
        Seq::empty()
    })
}

/// What the interactive flow still has to ask for before an email can be
/// sent.
pub fn missing_server_fields(cfg: &Config) -> (r: Vec<ServerField>)
    ensures
        r@ == missing_fields_spec(cfg@.server),
{
    let mut v: Vec<ServerField> = Vec::new();
    if cfg.server.server.is_none() {
        v.push(ServerField::Server);
    }
    if cfg.server.port.is_none() {
        v.push(ServerField::Port);
    }
    if cfg.server.from_address.is_none() {
        v.push(ServerField::FromAddress);
    }
    if cfg.server.password.is_none() && cfg.server.password_env.is_none() {
        v.push(ServerField::Password);
    }
    proof {
        assert(v@ =~= missing_fields_spec(cfg@.server));
    }
    v
}

/// Where the SMTP password comes from.
pub enum PasswordSource {
    /// The name of the environment variable holding it.
    EnvVar(String),
    /// The literal password stored in the configuration.
    Literal(String),
    /// Nothing is configured.
    Missing,
}

/// The password's source: a configured environment variable takes precedence
/// over a stored literal; with neither the password is missing.
pub fn password_source(cfg: &Config) -> (r: PasswordSource)
    ensures
        match cfg@.server.password_env {
            Some(e) => r matches PasswordSource::EnvVar(v) && v@ == e,
            None => match cfg@.server.password {
                Some(p) => r matches PasswordSource::Literal(v) && v@ == p,
                None => r is Missing,
            },
        },
{
    match &cfg.server.password_env {
        Some(e) => PasswordSource::EnvVar(e.clone()),
        None => match &cfg.server.password {
            Some(p) => PasswordSource::Literal(p.clone()),
            None => PasswordSource::Missing,
        },
    }
}

/// What a reply to the recipient-selection prompt means.
#[derive(Clone, Copy, PartialEq, Eq, Structural, Debug)]
pub enum UserChoice {
    /// Give up and exit.
    Quit,
    /// Add a new recipient.
    Add,
    /// The 0-based index of the chosen recipient.
    Pick(usize),
    /// Not understood; ask again.
    Invalid,
}

/// `q` quits, `a` adds, a number from 1 to the user count picks that user,
/// and anything else is not understood.
pub open spec fn choice_spec(s: Seq<char>, count: int) -> UserChoice {
    if s == seq!['q'] {
        UserChoice::Quit
    } else if s == seq!['a'] {
        UserChoice::Add
    } else {
        match parse_unsigned(s) {
            Some(n) => if 1 <= n <= count {
                UserChoice::Pick((n - 1) as usize)
            } else {
                UserChoice::Invalid
            },
            None => UserChoice::Invalid,
        }
    }
}

/// The `port` value the legacy format yields: a decimal `u16`, or nothing.
pub open spec fn legacy_port_value(v: Seq<char>) -> Option<u16> {
    match parse_unsigned(v) {
        Some(x) => if x <= 65535 {
            Some(x as u16)
        } else {
            None
        },
        None => None,
    }
}

/// One raw legacy line applied to the configuration read so far: blank lines
/// and comments change nothing; a `user` line with exactly three tab-joined
/// parts records a recipient; otherwise the first two whitespace-separated
/// tokens set the server field the key names.
pub open spec fn apply_legacy_line(st: ConfigView, raw: Seq<char>) -> ConfigView {
    let line = trim_text(raw);
    if line.len() == 0 || line[0] == '#' {
        st
    } else if line.len() >= 4 && line.take(4) == seq!['u', 's', 'e', 'r'] {
        let parts = split_on(line, '\t');
        if parts.len() == 3 {
            ConfigView {
                users: st.users.push(UserView { name: parts[1], email: parts[2] }),
                ..st
            }
        } else {
            st
        }
    } else {
        let toks = ws_tokens(line);
        if toks.len() >= 2 {
            let v = toks[1];
            if toks[0] == "server"@ {
                ConfigView { server: ServerConfigView { server: Some(v), ..st.server }, ..st }
            } else if toks[0] == "port"@ {
                ConfigView {
                    server: ServerConfigView { port: legacy_port_value(v), ..st.server },
                    ..st
                }
            } else if toks[0] == "from_address"@ {
                ConfigView {
                    server: ServerConfigView { from_address: Some(v), ..st.server },
                    ..st
                }
            } else if toks[0] == "password"@ {
                ConfigView { server: ServerConfigView { password: Some(v), ..st.server }, ..st }
            } else {
                st
            }
        } else {
            st
        }
    }
}

/// The legacy lines applied in order.
pub open spec fn legacy_fold(st: ConfigView, lines: Seq<Seq<char>>) -> ConfigView
    decreases lines.len(),
{
    if lines.len() == 0 {
        st
    } else {
        legacy_fold(apply_legacy_line(st, lines[0]), lines.drop_first())
    }
}

/// The configuration the legacy key-value format describes: each
/// newline-separated line, in order, applied to an empty configuration.
pub open spec fn legacy_config_of(content: Seq<char>) -> ConfigView {
    legacy_fold(empty_config_view(), split_on(content, '\n'))
}

/// Apply one raw legacy line to the configuration.
#[verifier::rlimit(60)]
fn apply_line(cfg: &mut Config, line: &[char])
    ensures
        final(cfg)@ == apply_legacy_line(old(cfg)@, line@),
{
    let bounds = trim_bounds(line);
    let t = vstd::slice::slice_subrange(line, bounds.0, bounds.1);
    let n = t.len();
    proof {
        assert(t@ == trim_text(line@));
    }
    if n == 0 {
        return ;
    }
    if t[0] == '#' {
        return ;
    }
    if n >= 4 && t[0] == 'u' && t[1] == 's' && t[2] == 'e' && t[3] == 'r' {
        proof {
            assert(t@.take(4) =~= seq!['u', 's', 'e', 'r']);
        }
        let k1 = match find_char(t, 0, '\t') {
            Some(k) => k,
            None => {
                proof {
                    lemma_sep_prefix_len(t@, '\t', n as int);
                    assert(split_on(t@, '\t').len() == 1);
                }
                return ;
            },
        };
        let ghost r1 = t@.skip(k1 + 1);
        proof {
            lemma_sep_prefix_len(t@, '\t', k1 as int);
            assert(split_on(t@, '\t') == seq![t@.take(k1 as int)] + split_on(r1, '\t'));
        }
        let k2 = match find_char(t, k1 + 1, '\t') {
            Some(k) => k,
            None => {
                proof {
                    assert(forall|j: int| 0 <= j < r1.len() ==> r1[j] != '\t');
                    lemma_sep_prefix_len(r1, '\t', r1.len() as int);
                    assert(split_on(r1, '\t').len() == 1);
                    assert(split_on(t@, '\t').len() == 2);
                }
                return ;
            },
        };
        let ghost r2 = t@.skip(k2 + 1);
        proof {
            assert(forall|j: int| 0 <= j < k2 - k1 - 1 ==> r1[j] != '\t');
            assert(r1[k2 - k1 - 1] == '\t');
            lemma_sep_prefix_len(r1, '\t', k2 - k1 - 1);
            assert(r1.skip(k2 - k1) =~= r2);
            assert(split_on(r1, '\t') == seq![r1.take(k2 - k1 - 1)] + split_on(r2, '\t'));
        }
        match find_char(t, k2 + 1, '\t') {
            Some(k3) => {
                proof {
                    assert(forall|j: int| 0 <= j < k3 - k2 - 1 ==> r2[j] != '\t');
                    assert(r2[k3 - k2 - 1] == '\t');
                    lemma_sep_prefix_len(r2, '\t', k3 - k2 - 1);
                    lemma_split_on_nonempty(r2.skip(k3 - k2), '\t');
                    assert(split_on(r2, '\t') == seq![r2.take(k3 - k2 - 1)] + split_on(
                        r2.skip(k3 - k2),
                        '\t',
                    ));
                    assert(split_on(r2, '\t').len() >= 2);
                    assert(split_on(t@, '\t').len() >= 4);
                }
                return ;
            },
            None => {
                proof {
                    assert(forall|j: int| 0 <= j < r2.len() ==> r2[j] != '\t');
                    lemma_sep_prefix_len(r2, '\t', r2.len() as int);
                    assert(split_on(r2, '\t') == seq![r2]);
                    assert(split_on(t@, '\t').len() == 3);
                    assert(split_on(t@, '\t')[1] == r1.take(k2 - k1 - 1));
                    assert(r1.take(k2 - k1 - 1) =~= t@.subrange(k1 + 1, k2 as int));
                    assert(split_on(t@, '\t')[2] == r2);
                    assert(r2 =~= t@.subrange(k2 + 1, n as int));
                }
                let name = chars_to_string(vstd::slice::slice_subrange(t, k1 + 1, k2));
                let email = chars_to_string(vstd::slice::slice_subrange(t, k2 + 1, n));
                cfg.users.push(User { name, email });
                proof {
                    assert(cfg@.users =~= old(cfg)@.users.push(
                        UserView {
                            name: t@.subrange(k1 + 1, k2 as int),
                            email: t@.subrange(k2 + 1, n as int),
                        },
                    ));
                    assert(cfg@ =~~= apply_legacy_line(old(cfg)@, line@));
                }
                return ;
            },
        }
    }
    proof {
        assert(t@.skip(0) =~= t@);
    }
    let t1 = match next_token(t, 0) {
        Some(t1) => t1,
        None => {
            return ;
        },
    };
    let t2 = match next_token(t, t1.1) {
        Some(t2) => t2,
        None => {
            proof {
                assert(ws_tokens(t@).skip(1).len() == 0);
                assert(ws_tokens(t@).len() == 1);
            }
            return ;
        },
    };
    proof {
        assert(ws_tokens(t@).len() >= 2);
        assert(ws_tokens(t@)[1] == ws_tokens(t@).skip(1)[0]);
    }
    let key = chars_to_string(vstd::slice::slice_subrange(t, t1.0, t1.1));
    let val = vstd::slice::slice_subrange(t, t2.0, t2.1);
    if compare_str(&key, "server") {
        cfg.server.server = Some(chars_to_string(val));
    } else if compare_str(&key, "port") {
        cfg.server.port = match parse_bounded(val, 65535) {
            Some(v) => Some(v as u16),
            None => None,
        };
    } else if compare_str(&key, "from_address") {
        cfg.server.from_address = Some(chars_to_string(val));
    } else if compare_str(&key, "password") {
        cfg.server.password = Some(chars_to_string(val));
    }
    proof {
        assert(cfg@.users =~= old(cfg)@.users);
        assert(cfg@ =~~= apply_legacy_line(old(cfg)@, line@));
    }
}

/// Parse the legacy key-value configuration format.
pub fn parse_legacy(content: &str) -> (r: Config)
    ensures
        r@ == legacy_config_of(content@),
{
    let chars = str_chars(content);
    let n = chars.len();
    let mut cfg = Config::new();
    let mut pos: usize = 0;
    proof {
        assert(chars@.skip(0) =~= chars@);
    }
    loop
        invariant_except_break
            pos <= n,
            n == chars@.len(),
            chars@ == content@,
            legacy_fold(cfg@, split_on(chars@.skip(pos as int), '\n')) == legacy_config_of(
                content@,
            ),
        ensures
            cfg@ == legacy_config_of(content@),
        decreases n - pos,
    {
        let k = match find_char(chars.as_slice(), pos, '\n') {
            Some(k) => k,
            None => n,
        };
        let line = vstd::slice::slice_subrange(chars.as_slice(), pos, k);
        let ghost rem = chars@.skip(pos as int);
        let ghost st0 = cfg@;
        proof {
            assert(forall|j: int| 0 <= j < k - pos ==> rem[j] != '\n');
            lemma_sep_prefix_len(rem, '\n', k - pos);
            assert(line@ =~= rem.take(k - pos));
        }
        apply_line(&mut cfg, line);
        proof {
            if k == n {
                assert(rem.take(k - pos) =~= rem);
                assert(split_on(rem, '\n') == seq![rem]);
                assert(seq![rem].drop_first() =~= Seq::<Seq<char>>::empty());
                assert(seq![rem][0] == rem);
                assert(cfg@ == apply_legacy_line(st0, rem));
                assert(legacy_fold(st0, seq![rem]) == legacy_fold(
                    apply_legacy_line(st0, rem),
                    seq![rem].drop_first(),
                ));
                assert(legacy_fold(apply_legacy_line(st0, rem), Seq::<Seq<char>>::empty())
                    == apply_legacy_line(st0, rem));
                assert(legacy_fold(st0, split_on(rem, '\n')) == cfg@);
            } else {
                assert(rem[k - pos] == '\n');
                assert(split_on(rem, '\n') == seq![rem.take(k - pos)] + split_on(
                    rem.skip(k - pos + 1),
                    '\n',
                ));
                assert((seq![rem.take(k - pos)] + split_on(rem.skip(k - pos + 1), '\n')).drop_first()
                    =~= split_on(rem.skip(k - pos + 1), '\n'));
                assert(rem.skip(k - pos + 1) =~= chars@.skip(k + 1));
                let lines = split_on(rem, '\n');
                assert(lines[0] == rem.take(k - pos));
                assert(cfg@ == apply_legacy_line(st0, lines[0]));
                assert(legacy_fold(st0, lines) == legacy_fold(
                    apply_legacy_line(st0, lines[0]),
                    lines.drop_first(),
                ));
            }
        }
        if k == n {
            break ;
        }
        pos = k + 1;
    }
    cfg
}

/// Interpret one reply to the recipient-selection prompt.
pub fn interpret_choice(choice: &str, user_count: usize) -> (r: UserChoice)
    ensures
        r == choice_spec(choice@, user_count as int),
{
    let chars = str_chars(choice);
    if chars.len() == 1 {
        let c = chars[0];
        proof {
            assert(chars@ =~= seq![chars@[0]]);
        }
        if c == 'q' {
            return UserChoice::Quit;
        }
        if c == 'a' {
            return UserChoice::Add;
        }
    }
    match parse_bounded(chars.as_slice(), user_count) {
        Some(n) => {
            proof {
                assert(parse_unsigned(choice@) == Some(n as int));
                assert(choice@ != seq!['q'] && choice@ != seq!['a']);
            }
            if n >= 1 {
                UserChoice::Pick(n - 1)
            } else {
                UserChoice::Invalid
            }
        },
        None => UserChoice::Invalid,
    }
}

} // verus!
