//! Command-line configuration of the bridge, the arguments handed on to the MCP
//! server, and the `docker exec` command line that starts it.
use vstd::prelude::*;
use crate::text::{
    append_str, chars_of, is_blank, is_blank_str, is_word_split, is_ws, lemma_words_not_blank,
    lemma_words_split, push_char,
    split_whitespace, starts_with_chars, string_of, views, words,
};
use crate::url::{
    decimal_value, is_digit, opt_view, resolution_lookup_target, resolution_target, resolved,
    resolved_url,
};

verus! {

/// Settings of the bridge, as given on the command line or in the
/// environment (`PORT`, `BIND_ADDR`, `MCP_CONTAINER`, `MCP_COMMAND`, `MCP_ARGS`).
pub struct Args {
    /// TCP port to listen on (default 3000).
    pub port: u16,
    /// Bind address (default `0.0.0.0`).
    pub bind: String,
    /// Docker container to exec into (default `chrome-mcp-server`).
    pub container: String,
    /// MCP executable inside the container (default `chrome-devtools-mcp`).
    pub mcp_command: String,
    /// Extra arguments forwarded to the MCP server.
    pub mcp_args: Vec<String>,
}

/// Configuration of the MCP child process.
pub struct ProcessConfig {
    /// Docker container to exec into (e.g. `chrome-mcp-server`).
    pub container: String,
    /// Command to run inside the container (e.g. `chrome-devtools-mcp`).
    pub mcp_command: String,
    /// Extra arguments forwarded to the MCP server.
    pub mcp_args: Vec<String>,
}

/// A program and its arguments, to be spawned with stdin and stdout piped.
pub struct DockerCommand {
    pub program: String,
    pub args: Vec<String>,
}

/// The texts of `s` that are not blank, in order.
pub open spec fn nonblank(s: Seq<Seq<char>>) -> Seq<Seq<char>>
    decreases s.len(),
{
    if s.len() == 0 {
        Seq::<Seq<char>>::empty()
    } else {
        let r = nonblank(s.drop_last());
        if is_blank(s.last()) {
            r
        } else {
            r.push(s.last())
        }
    }
}

/// The MCP server's arguments: the non-blank ones of the command line; when
/// there are none, the whitespace-separated words of `MCP_ARGS` if that is set
/// and not blank.
pub open spec fn effective_args(cli: Seq<Seq<char>>, env: Option<Seq<char>>) -> Seq<Seq<char>> {
    let kept = nonblank(cli);
    match env {
        Some(v) => if kept.len() == 0 && !is_blank(v) {
            words(v)
        } else {
            kept
        },
        None => kept,
    }
}

pub open spec fn browser_url_prefix() -> Seq<char> {
    seq!['-', '-', 'b', 'r', 'o', 'w', 's', 'e', 'r', '-', 'u', 'r', 'l', '=']
}

/// The URL of a `--browser-url=URL` argument.
pub open spec fn browser_url_in(arg: Seq<char>) -> Option<Seq<char>> {
    if arg.len() >= 14 && arg.take(14) == browser_url_prefix() {
        Some(arg.skip(14))
    } else {
        None
    }
}

/// The name to look up for an argument: that of its URL when it is a
/// `--browser-url=URL` argument.
pub open spec fn arg_target(arg: Seq<char>) -> Option<Seq<char>> {
    match browser_url_in(arg) {
        Some(url) => resolution_target(url),
        None => None,
    }
}

/// An argument as it is handed on: a `--browser-url=URL` argument with its URL
/// resolved, any other unchanged.
pub open spec fn rewritten(arg: Seq<char>, first_ip: Option<Seq<char>>) -> Seq<char> {
    match browser_url_in(arg) {
        Some(url) => browser_url_prefix() + resolved(url, first_ip),
        None => arg,
    }
}

pub open spec fn docker_name() -> Seq<char> {
    seq!['d', 'o', 'c', 'k', 'e', 'r']
}

/// `docker exec -i CONTAINER COMMAND ARGS...`, blank arguments left out.
pub open spec fn docker_args(container: Seq<char>, command: Seq<char>, args: Seq<Seq<char>>) -> Seq<
    Seq<char>,
> {
    seq![seq!['e', 'x', 'e', 'c'], seq!['-', 'i'], container, command] + nonblank(args)
}

/// `docker exec CONTAINER pkill -f COMMAND`.
pub open spec fn cleanup_args(container: Seq<char>, command: Seq<char>) -> Seq<Seq<char>> {
    seq![seq!['e', 'x', 'e', 'c'], container, seq!['p', 'k', 'i', 'l', 'l'], seq!['-', 'f'], command]
}

pub open spec fn digit_char(d: int) -> char {
    (d + 48) as char
}

/// The decimal digits of `n`, without leading zeros.
pub open spec fn decimal_text(n: nat) -> Seq<char>
    decreases n,
{
    if n < 10 {
        seq![digit_char(n as int)]
    } else {
        decimal_text(n / 10).push(digit_char((n % 10) as int))
    }
}

/// The texts of `s`, blank ones left out.
fn keep_nonblank(s: &Vec<String>) -> (r: Vec<String>)
    ensures
        views(r@) == nonblank(views(s@)),
{
    let mut out: Vec<String> = Vec::new();
    let mut i: usize = 0;
    while i < s.len()
        invariant
            i <= s.len(),
            views(out@) == nonblank(views(s@).take(i as int)),
        decreases s.len() - i,
    {
        let ghost prev = views(s@).take(i as int);
        assert(views(s@).take(i + 1).drop_last() =~= prev);
        assert(views(s@).take(i + 1).last() == s@[i as int]@);
        if !is_blank_str(s[i].as_str()) {
            out.push(s[i].clone());
            assert(views(out@) =~= nonblank(prev).push(s@[i as int]@));
        }
        i += 1;
    }
    assert(views(s@).take(s.len() as int) =~= views(s@));
    out
}

/// The arguments handed on to the MCP server: the non-blank ones given on the
/// command line, or, when there are none, the whitespace-separated words of
/// the `MCP_ARGS` value `env` (if it is set and not blank).
pub fn effective_mcp_args(cli: &Vec<String>, env: &Option<String>) -> (r: Vec<String>)
    ensures
        views(r@) == effective_args(views(cli@), opt_view(*env)),
{
    let kept = keep_nonblank(cli);
    match env {
        Some(v) => {
            if kept.len() == 0 && !is_blank_str(v.as_str()) {
                split_whitespace(v.as_str())
            } else {
                kept
            }
        },
        None => kept,
    }
}

/// The URL of a `--browser-url=URL` argument, as characters.
fn browser_url_chars(arg: &str) -> (r: Option<Vec<char>>)
    ensures
        match (r, browser_url_in(arg@)) {
            (Some(u), Some(url)) => u@ == url,
            (None, None) => true,
            _ => false,
        },
{
    let v = chars_of(arg);
    let p = chars_of("--browser-url=");
    proof {
        reveal_strlit("--browser-url=");
        assert(p@ =~= browser_url_prefix());
    }
    if starts_with_chars(&v, &p) {
        let mut u: Vec<char> = Vec::new();
        let mut i: usize = 14;
        while i < v.len()
            invariant
                14 <= i <= v.len(),
                u@ == v@.subrange(14, i as int),
            decreases v.len() - i,
        {
            u.push(v[i]);
            assert(v@.subrange(14, i as int).push(v@[i as int]) =~= v@.subrange(14, i + 1));
            i += 1;
        }
        assert(u@ =~= v@.skip(14));
        Some(u)
    } else {
        None
    }
}

/// The name to look up before `arg` is handed on: that of the URL of a
/// `--browser-url=URL` argument whose host is a name; `None` for any other
/// argument.
pub fn arg_lookup_target(arg: &str) -> (r: Option<String>)
    ensures
        opt_view(r) == arg_target(arg@),
{
    match browser_url_chars(arg) {
        Some(u) => {
            let url = string_of(&u);
            resolution_lookup_target(url.as_str())
        },
        None => None,
    }
}

/// `arg` as it is handed on to the MCP server: a `--browser-url=URL` argument
/// gets `URL` resolved with `first_ip` (see `resolved_url`); any other
/// argument is unchanged.
pub fn rewritten_arg(arg: &str, first_ip: &Option<String>) -> (r: String)
    ensures
        r@ == rewritten(arg@, opt_view(*first_ip)),
{
    match browser_url_chars(arg) {
        Some(u) => {
            let url = string_of(&u);
            let resolved_text = resolved_url(url.as_str(), first_ip);
            let mut out = String::new();
            append_str(&mut out, "--browser-url=");
            append_str(&mut out, resolved_text.as_str());
            proof {
                reveal_strlit("--browser-url=");
                assert("--browser-url="@ =~= browser_url_prefix());
                assert(out@ =~= browser_url_prefix() + resolved_text@);
            }
            out
        },
        None => {
            let v = chars_of(arg);
            string_of(&v)
        },
    }
}

/// Appends the decimal digits of `n` to `s`.
fn push_decimal(s: &mut String, n: u32)
    ensures
        final(s)@ == old(s)@ + decimal_text(n as nat),
    decreases n,
{
    if n >= 10 {
        push_decimal(s, n / 10);
    }
    let d = n % 10;
    let c = ((d as u8) + 48) as char;
    proof {
        assert(c == digit_char(d as int));
    }
    push_char(s, c);
    proof {
        if n >= 10 {
            assert(old(s)@ + decimal_text((n / 10) as nat) + seq![c] =~= old(s)@ + decimal_text(
                (n / 10) as nat,
            ).push(c));
        } else {
            assert(old(s)@.push(c) =~= old(s)@ + seq![c]);
        }
    }
}

impl ProcessConfig {
    /// The command that starts the MCP server:
    /// `docker exec -i CONTAINER COMMAND ARGS...`, where the blank arguments
    /// are left out.
    pub fn docker_command(&self) -> (r: DockerCommand)
        ensures
            r.program@ == docker_name(),
            views(r.args@) == docker_args(self.container@, self.mcp_command@, views(self.mcp_args@)),
    {
        let program = string_of(&chars_of("docker"));
        let mut args: Vec<String> = Vec::new();
        args.push(string_of(&chars_of("exec")));
        args.push(string_of(&chars_of("-i")));
        args.push(self.container.clone());
        args.push(self.mcp_command.clone());
        let extra = keep_nonblank(&self.mcp_args);
        let ghost head = views(args@);
        let mut i: usize = 0;
        while i < extra.len()
            invariant
                i <= extra.len(),
                views(args@) == head + views(extra@).take(i as int),
            decreases extra.len() - i,
        {
            args.push(extra[i].clone());
            assert(head + views(extra@).take(i + 1) =~= (head + views(extra@).take(i as int)).push(
                extra@[i as int]@,
            ));
            i += 1;
        }
        proof {
            reveal_strlit("docker");
            reveal_strlit("exec");
            reveal_strlit("-i");
            assert("exec"@ =~= seq!['e', 'x', 'e', 'c']);
            assert("-i"@ =~= seq!['-', 'i']);
            assert(views(extra@).take(extra@.len() as int) =~= views(extra@));
            assert(head =~= seq![seq!['e', 'x', 'e', 'c'], seq!['-', 'i'], self.container@, self.mcp_command@]);
            assert(program@ =~= docker_name());
        }
        DockerCommand { program, args }
    }
}

impl ProcessConfig {
    /// The command run when a session is torn down, to kill any MCP server
    /// process left behind in the container:
    /// `docker exec CONTAINER pkill -f COMMAND`.
    pub fn cleanup_command(&self) -> (r: DockerCommand)
        ensures
            r.program@ == docker_name(),
            views(r.args@) == cleanup_args(self.container@, self.mcp_command@),
    {
        let program = string_of(&chars_of("docker"));
        let mut args: Vec<String> = Vec::new();
        args.push(string_of(&chars_of("exec")));
        args.push(self.container.clone());
        args.push(string_of(&chars_of("pkill")));
        args.push(string_of(&chars_of("-f")));
        args.push(self.mcp_command.clone());
        proof {
            reveal_strlit("docker");
            reveal_strlit("exec");
            reveal_strlit("pkill");
            reveal_strlit("-f");
            assert("exec"@ =~= seq!['e', 'x', 'e', 'c']);
            assert("pkill"@ =~= seq!['p', 'k', 'i', 'l', 'l']);
            assert("-f"@ =~= seq!['-', 'f']);
            assert(views(args@) =~= cleanup_args(self.container@, self.mcp_command@));
            assert(program@ =~= docker_name());
        }
        DockerCommand { program, args }
    }
}

impl Args {
    /// `BIND:PORT`, the address to listen on.
    pub fn listen_address(&self) -> (r: String)
        ensures
            r@ == self.bind@ + seq![':'] + decimal_text(self.port as nat),
    {
        let mut out = string_of(&chars_of(self.bind.as_str()));
        push_char(&mut out, ':');
        push_decimal(&mut out, self.port as u32);
        out
    }

    /// The configuration of the MCP child process: the container and command
    /// given, with `mcp_args`, the arguments after hostname resolution.
    pub fn process_config(&self, mcp_args: Vec<String>) -> (r: ProcessConfig)
        ensures
            r.container@ == self.container@,
            r.mcp_command@ == self.mcp_command@,
            r.mcp_args@ == mcp_args@,
    {
        ProcessConfig {
            container: self.container.clone(),
            mcp_command: self.mcp_command.clone(),
            mcp_args,
        }
    }
}

/// No argument handed on to the MCP server is blank.
pub proof fn lemma_effective_args_not_blank(cli: Seq<Seq<char>>, env: Option<Seq<char>>)
    ensures
        forall|k: int|
            0 <= k < effective_args(cli, env).len() ==> !is_blank(
                #[trigger] effective_args(cli, env)[k],
            ),
{
    lemma_nonblank_not_blank(cli);
    match env {
        Some(v) => {
            lemma_words_not_blank(v);
            if nonblank(cli).len() == 0 && !is_blank(v) {
                assert(effective_args(cli, env) == words(v));
                assert forall|k: int| 0 <= k < words(v).len() implies !is_blank(
                    #[trigger] words(v)[k],
                ) by {
                    assert(words(v)[k].len() > 0);
                }
            } else {
                assert(effective_args(cli, env) == nonblank(cli));
            }
        },
        None => {},
    }
}

/// What `nonblank` keeps is not blank.
pub proof fn lemma_nonblank_not_blank(s: Seq<Seq<char>>)
    ensures
        forall|k: int| 0 <= k < nonblank(s).len() ==> !is_blank(#[trigger] nonblank(s)[k]),
    decreases s.len(),
{
    if s.len() > 0 {
        lemma_nonblank_not_blank(s.drop_last());
        let r = nonblank(s.drop_last());
        if !is_blank(s.last()) {
            assert forall|k: int| 0 <= k < nonblank(s).len() implies !is_blank(
                #[trigger] nonblank(s)[k],
            ) by {
                if k < r.len() {
                    assert(nonblank(s)[k] == r[k]);
                }
            }
        }
    }
}

} // verus!

verus! {

/// The arguments kept from a list are exactly those that are not blank, in
/// their order: `nonblank` is the filter of the non-blank texts.
pub proof fn lemma_nonblank_is_filter(s: Seq<Seq<char>>)
    ensures
        nonblank(s) == s.filter(|x: Seq<char>| !is_blank(x)),
    decreases s.len(),
{
    reveal(Seq::filter);
    if s.len() > 0 {
        lemma_nonblank_is_filter(s.drop_last());
    }
}

/// The command line that starts the MCP server always begins with `exec`,
/// `-i` (so that the server's stdin is attached), the container and the
/// command, whatever the arguments; after them come exactly the non-blank
/// arguments, in order.
pub proof fn lemma_docker_args_shape(container: Seq<char>, command: Seq<char>, args: Seq<Seq<char>>)
    ensures
        docker_args(container, command, args).len() >= 4,
        docker_args(container, command, args)[0] == seq!['e', 'x', 'e', 'c'],
        docker_args(container, command, args)[1] == seq!['-', 'i'],
        docker_args(container, command, args)[2] == container,
        docker_args(container, command, args)[3] == command,
        docker_args(container, command, args).skip(4) == args.filter(
            |x: Seq<char>| !is_blank(x),
        ),
{
    lemma_nonblank_is_filter(args);
    let d = docker_args(container, command, args);
    assert(d.skip(4) =~= nonblank(args));
}

/// The decimal text of `n` is digits only, has no leading zero, and reads
/// back as `n`.
pub proof fn lemma_decimal_text_reads_back(n: nat)
    ensures
        decimal_value(decimal_text(n)) == n,
        decimal_text(n).len() >= 1,
        forall|i: int| 0 <= i < decimal_text(n).len() ==> is_digit(#[trigger] decimal_text(n)[i]),
        decimal_text(n).len() == 1 || decimal_text(n)[0] != '0',
    decreases n,
{
    if n < 10 {
        let c = digit_char(n as int);
        assert(c as u32 == n + 48);
        assert(decimal_text(n) =~= seq![c]);
        assert(seq![c].drop_last() =~= Seq::<char>::empty());
        assert(decimal_value(seq![c].drop_last()) == 0);
        assert(seq![c].last() == c);
    } else {
        lemma_decimal_text_reads_back(n / 10);
        let p = decimal_text(n / 10);
        let c = digit_char((n % 10) as int);
        assert(c as u32 == n % 10 + 48);
        let t = p.push(c);
        assert(t.drop_last() =~= p);
        assert(n == (n / 10) * 10 + n % 10);
        assert(decimal_value(t) == decimal_value(p) * 10 + (n % 10));
        if n / 10 < 10 {
            assert(p =~= seq![digit_char((n / 10) as int)]);
            assert(p[0] as u32 == n / 10 + 48);
        } else {
            lemma_decimal_text_reads_back(n / 100);
            assert(n / 10 / 10 == n / 100);
            assert(p.len() == decimal_text(n / 100).len() + 1);
        }
        assert forall|i: int| 0 <= i < t.len() implies is_digit(#[trigger] t[i]) by {
            if i < p.len() {
                assert(t[i] == p[i]);
            }
        }
        assert(t[0] == p[0]);
    }
}

/// The listen address is the bind address, `:`, and the port's decimal
/// digits, which read back as the port.
pub proof fn lemma_listen_address_names_port(bind: Seq<char>, port: u16)
    ensures
        ({
            let t = bind + seq![':'] + decimal_text(port as nat);
            &&& t.take(bind.len() as int) == bind
            &&& t[bind.len() as int] == ':'
            &&& decimal_value(t.skip(bind.len() as int + 1)) == port
            &&& forall|i: int|
                bind.len() + 1 <= i < t.len() ==> is_digit(#[trigger] t[i])
        }),
{
    let t = bind + seq![':'] + decimal_text(port as nat);
    lemma_decimal_text_reads_back(port as nat);
    assert(t.take(bind.len() as int) =~= bind);
    assert(t.skip(bind.len() as int + 1) =~= decimal_text(port as nat));
    assert forall|i: int| bind.len() + 1 <= i < t.len() implies is_digit(#[trigger] t[i]) by {
        assert(t[i] == decimal_text(port as nat)[i - bind.len() - 1]);
    }
}

} // verus!

verus! {

/// When every command-line argument is blank and `MCP_ARGS` holds a
/// non-whitespace character, the arguments handed on are the words of
/// `MCP_ARGS`: there is at least one, and `MCP_ARGS` is them separated by
/// whitespace (each word a non-empty run without whitespace).
pub proof fn lemma_env_args_used_when_cli_blank(cli: Seq<Seq<char>>, env: Seq<char>)
    requires
        forall|i: int, j: int| 0 <= i < cli.len() && 0 <= j < cli[i].len() ==> is_ws(#[trigger] cli[i][j]),
        exists|j: int| 0 <= j < env.len() && !is_ws(env[j]),
    ensures
        effective_args(cli, Some(env)) == words(env),
        effective_args(cli, Some(env)).len() > 0,
        exists|g: Seq<Seq<char>>| is_word_split(env, g, effective_args(cli, Some(env))),
{
    lemma_nonblank_is_filter(cli);
    lemma_all_blank_kept_none(cli);
    lemma_words_split(env);
    assert(!is_blank(env));
}

/// Only blank arguments keep nothing.
proof fn lemma_all_blank_kept_none(cli: Seq<Seq<char>>)
    requires
        forall|i: int, j: int| 0 <= i < cli.len() && 0 <= j < cli[i].len() ==> is_ws(#[trigger] cli[i][j]),
    ensures
        nonblank(cli).len() == 0,
    decreases cli.len(),
{
    if cli.len() > 0 {
        let t = cli.drop_last();
        assert forall|i: int, j: int| 0 <= i < t.len() && 0 <= j < t[i].len() implies is_ws(#[trigger] t[i][j]) by {
            assert(t[i] == cli[i]);
        }
        lemma_all_blank_kept_none(t);
        assert forall|j: int| 0 <= j < cli.last().len() implies is_ws(#[trigger] cli.last()[j]) by {
            assert(cli.last() == cli[cli.len() - 1]);
        }
    }
}

} // verus!

verus! {

/// When some command-line argument is not blank, the arguments handed on
/// are exactly the non-blank command-line arguments, in order, whatever
/// `MCP_ARGS` holds.
pub proof fn lemma_cli_args_used_when_given(cli: Seq<Seq<char>>, env: Option<Seq<char>>, i: int)
    requires
        0 <= i < cli.len(),
        !is_blank(cli[i]),
    ensures
        effective_args(cli, env) == cli.filter(|x: Seq<char>| !is_blank(x)),
        effective_args(cli, env).len() > 0,
{
    lemma_nonblank_is_filter(cli);
    broadcast use vstd::seq_lib::group_filter_ensures;

    assert(cli.filter(|x: Seq<char>| !is_blank(x)).contains(cli[i]));
}

} // verus!
