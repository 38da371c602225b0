//! Host manager: the SSH host list of the floating host picker.
//!
//! Hosts come from the configuration file and from `~/.ssh/config`
//! (`parse_ssh_config`); the picker filters them by tag, group and a fuzzy
//! query and orders them by match score, then by how often each was connected
//! to, then by name. Reading the files and writing the history is the
//! application's job.

use vstd::prelude::*;
use vstd::string::StringExecFns;
use crate::text::{is_ws, is_whitespace, trim, chars_of, trim_bounds, string_from_range, string_from_chars, vec_range, lowercase, lowercase_range, word_is, decimal, decimal_chars, push_char, pop_char};
use crate::ranking::{Scored, RankKey, rank, is_ranked, keys_of, indices_of, distinct_indices, skim_score, fuzzy_match, next_index, prev_index, strictly_sorted, words_view, insert_sorted_unique};
use crate::named_blocks::unix_now;

verus! {

/// One SSH host entry.
#[derive(Clone, Debug)]
pub struct HostConfig {
    /// Display name.
    pub name: String,
    /// Host name or address to connect to.
    pub host: String,
    pub port: u16,
    pub username: String,
    /// `"key"`, `"agent"` or `"password"`.
    pub auth_type: String,
    /// Private key file, for key authentication.
    pub key_path: Option<String>,
    /// Jump host, if any.
    pub proxy_jump: Option<String>,
    pub x11_forward: bool,
    pub x11_trusted: bool,
    /// Group name; empty for none.
    pub group: String,
    pub tags: Vec<String>,
}

/// The contents of a [`HostConfig`].
pub struct HostView {
    pub name: Seq<char>,
    pub host: Seq<char>,
    pub port: u16,
    pub username: Seq<char>,
    pub auth_type: Seq<char>,
    pub key_path: Option<Seq<char>>,
    pub proxy_jump: Option<Seq<char>>,
    pub x11_forward: bool,
    pub x11_trusted: bool,
    pub group: Seq<char>,
    pub tags: Seq<Seq<char>>,
}

/// The characters of each string.
pub open spec fn strings_view(v: Seq<String>) -> Seq<Seq<char>> {
    v.map_values(|t: String| t@)
}

/// The characters of an optional string.
pub open spec fn opt_view(s: Option<String>) -> Option<Seq<char>> {
    match s {
        Some(t) => Some(t@),
        None => None,
    }
}

impl View for HostConfig {
    type V = HostView;

    open spec fn view(&self) -> HostView {
        HostView {
            name: self.name@,
            host: self.host@,
            port: self.port,
            username: self.username@,
            auth_type: self.auth_type@,
            key_path: opt_view(self.key_path),
            proxy_jump: opt_view(self.proxy_jump),
            x11_forward: self.x11_forward,
            x11_trusted: self.x11_trusted,
            group: self.group@,
            tags: self.tags@.map_values(|t: String| t@),
        }
    }
}

// ---- numbers ----

/// `s` is a non-empty run of ASCII digits.
pub open spec fn all_digits(s: Seq<char>) -> bool {
    s.len() > 0 && forall|i: int| 0 <= i < s.len() ==> '0' <= #[trigger] s[i] <= '9'
}

/// The decimal value of a run of digits.
pub open spec fn digits_value(s: Seq<char>) -> int
    decreases s.len(),
{
    if s.len() == 0 {
        0
    } else {
        digits_value(s.drop_last()) * 10 + (s.last() as int - '0' as int)
    }
}

/// `u16::from_str`: an optional `+` sign, then decimal digits whose value
/// fits in 16 bits.
pub open spec fn spec_parse_u16(s: Seq<char>) -> Option<u16> {
    let d = if s.len() > 0 && s[0] == '+' {
        s.drop_first()
    } else {
        s
    };
    if all_digits(d) && digits_value(d) <= 65535 {
        Some(digits_value(d) as u16)
    } else {
        None
    }
}

proof fn lemma_digits_value_nonneg(s: Seq<char>)
    requires
        forall|i: int| 0 <= i < s.len() ==> '0' <= #[trigger] s[i] <= '9',
    ensures
        digits_value(s) >= 0,
    decreases s.len(),
{
    if s.len() > 0 {
        lemma_digits_value_nonneg(s.drop_last());
    }
}

/// Parse a port number as `u16::from_str` does.
pub fn parse_u16(v: &Vec<char>) -> (r: Option<u16>)
    ensures
        r == spec_parse_u16(v@),
{
    let start: usize = if v.len() > 0 && v[0] == '+' {
        1
    } else {
        0
    };
    let ghost d = if v@.len() > 0 && v@[0] == '+' {
        v@.drop_first()
    } else {
        v@
    };
    assert(d =~= v@.subrange(start as int, v.len() as int));
    if start == v.len() {
        assert(d.len() == 0);
        assert(!all_digits(d));
        return None;
    }
    let mut acc: u32 = 0;
    let mut i = start;
    while i < v.len()
        invariant
            start <= i <= v.len(),
            d == v@.subrange(start as int, v.len() as int),
            spec_parse_u16(v@) == if all_digits(d) && digits_value(d) <= 65535 {
                Some(digits_value(d) as u16)
            } else {
                None
            },
            forall|k: int| start <= k < i ==> '0' <= #[trigger] v@[k] <= '9',
            acc == digits_value(v@.subrange(start as int, i as int)),
            acc <= 65535,
        decreases v.len() - i,
    {
        let c = v[i];
        if c < '0' || c > '9' {
            assert(!all_digits(d)) by {
                assert(d[i - start] == c);
            }
            return None;
        }
        let digit: u32 = (c as u32) - ('0' as u32);
        let next: u32 = acc * 10 + digit;
        proof {
            let sub = v@.subrange(start as int, i + 1);
            assert(sub.drop_last() =~= v@.subrange(start as int, i as int));
            assert(digits_value(sub) == next);
        }
        if next > 65535 {
            proof {
                if all_digits(d) {
                    lemma_prefix_value_bound(d, (i + 1 - start) as int);
                    assert(d.subrange(0, i + 1 - start) =~= v@.subrange(start as int, i + 1));
                }
            }
            return None;
        }
        acc = next;
        i = i + 1;
    }
    assert(v@.subrange(start as int, v.len() as int) == d);
    Some(acc as u16)
}

/// A run of digits is worth at least any of its prefixes.
proof fn lemma_prefix_value_bound(d: Seq<char>, n: int)
    requires
        0 <= n <= d.len(),
        all_digits(d),
    ensures
        digits_value(d) >= digits_value(d.subrange(0, n)),
    decreases d.len() - n,
{
    if n < d.len() {
        lemma_prefix_value_bound(d, n + 1);
        let p = d.subrange(0, n + 1);
        assert(p.drop_last() =~= d.subrange(0, n));
        assert(p.last() == d[n]);
        assert('0' <= d[n] <= '9');
        lemma_digits_value_nonneg(d.subrange(0, n));
        assert(digits_value(p) == digits_value(d.subrange(0, n)) * 10 + (d[n] as int - '0' as int));
    } else {
        assert(d.subrange(0, n) =~= d);
    }
}

// ---- ~/.ssh/config ----

/// Position of the first `c` in `s`; `s.len()` when there is none.
pub open spec fn first_index(s: Seq<char>, c: char) -> int
    decreases s.len(),
{
    if s.len() == 0 {
        0
    } else if s[0] == c {
        0
    } else {
        1 + first_index(s.drop_first(), c)
    }
}

/// Position of the first whitespace character in `s`; `s.len()` when there
/// is none.
pub open spec fn first_ws(s: Seq<char>) -> int
    decreases s.len(),
{
    if s.len() == 0 {
        0
    } else if is_ws(s[0]) {
        0
    } else {
        1 + first_ws(s.drop_first())
    }
}

proof fn lemma_first_index_at(s: Seq<char>, c: char, i: int)
    requires
        0 <= i <= s.len(),
        forall|k: int| 0 <= k < i ==> #[trigger] s[k] != c,
        i == s.len() || s[i] == c,
    ensures
        first_index(s, c) == i,
    decreases i,
{
    if i > 0 {
        let t = s.drop_first();
        assert forall|k: int| 0 <= k < i - 1 implies #[trigger] t[k] != c by {
            assert(t[k] == s[k + 1]);
        }
        if i - 1 < t.len() {
            assert(t[i - 1] == s[i]);
        }
        lemma_first_index_at(t, c, i - 1);
    }
}

proof fn lemma_first_ws_at(s: Seq<char>, i: int)
    requires
        0 <= i <= s.len(),
        forall|k: int| 0 <= k < i ==> !is_ws(#[trigger] s[k]),
        i == s.len() || is_ws(s[i]),
    ensures
        first_ws(s) == i,
    decreases i,
{
    if i > 0 {
        let t = s.drop_first();
        assert forall|k: int| 0 <= k < i - 1 implies !is_ws(#[trigger] t[k]) by {
            assert(t[k] == s[k + 1]);
        }
        if i - 1 < t.len() {
            assert(t[i - 1] == s[i]);
        }
        lemma_first_ws_at(t, i - 1);
    }
}

/// The keyword and value of a configuration line: `keyword value` or
/// `keyword=value`, each trimmed. Blank lines, `#` comments and lines of a
/// single word give `None`.
pub open spec fn spec_split_directive(line: Seq<char>) -> Option<(Seq<char>, Seq<char>)> {
    let t = trim(line);
    if t.len() == 0 || t[0] == '#' {
        None
    } else if first_index(t, '=') < t.len() {
        let eq = first_index(t, '=');
        Some((trim(t.subrange(0, eq)), trim(t.subrange(eq + 1, t.len() as int))))
    } else if first_ws(t) < t.len() {
        let sp = first_ws(t);
        Some((trim(t.subrange(0, sp)), trim(t.subrange(sp, t.len() as int))))
    } else {
        None
    }
}

fn trimmed(v: &Vec<char>, a: usize, b: usize) -> (r: Vec<char>)
    requires
        a <= b <= v.len(),
    ensures
        r@ == trim(v@.subrange(a as int, b as int)),
{
    let part = vec_range(v, a, b);
    let (x, y) = trim_bounds(&part);
    vec_range(&part, x, y)
}

fn split_directive(line: &Vec<char>) -> (r: Option<(Vec<char>, Vec<char>)>)
    ensures
        match spec_split_directive(line@) {
            None => r is None,
            Some(kv) => r matches Some((k, v)) && k@ == kv.0 && v@ == kv.1,
        },
{
    let (ta, tb) = trim_bounds(line);
    if ta == tb || line[ta] == '#' {
        return None;
    }
    let t = vec_range(line, ta, tb);
    assert(t@[0] == line@[ta as int]);
    let mut eq: usize = 0;
    while eq < t.len() && t[eq] != '='
        invariant
            eq <= t.len(),
            forall|k: int| 0 <= k < eq ==> #[trigger] t@[k] != '=',
        decreases t.len() - eq,
    {
        eq = eq + 1;
    }
    proof {
        lemma_first_index_at(t@, '=', eq as int);
    }
    if eq < t.len() {
        let kw = trimmed(&t, 0, eq);
        let val = trimmed(&t, eq + 1, t.len());
        return Some((kw, val));
    }
    let mut sp: usize = 0;
    while sp < t.len() && !is_whitespace(t[sp])
        invariant
            sp <= t.len(),
            forall|k: int| 0 <= k < sp ==> !is_ws(#[trigger] t@[k]),
        decreases t.len() - sp,
    {
        sp = sp + 1;
    }
    proof {
        lemma_first_ws_at(t@, sp as int);
    }
    if sp < t.len() {
        let kw = trimmed(&t, 0, sp);
        let val = trimmed(&t, sp, t.len());
        Some((kw, val))
    } else {
        None
    }
}

/// The `Host` block being read.
pub struct SshBlockView {
    pub alias: Option<Seq<char>>,
    pub hostname: Option<Seq<char>>,
    pub user: Option<Seq<char>>,
    pub port: u16,
    pub key: Option<Seq<char>>,
}

/// The hosts finished so far and the block being read.
pub struct SshParseView {
    pub hosts: Seq<HostView>,
    pub block: SshBlockView,
}

/// A block with only an alias (or none, before the first `Host` line).
pub open spec fn fresh_block(alias: Option<Seq<char>>) -> SshBlockView {
    SshBlockView { alias, hostname: None, user: None, port: 22, key: None }
}

/// `~/…` with the home directory in place of `~`.
pub open spec fn expand_home(k: Seq<char>, home: Seq<char>) -> Seq<char> {
    if k.len() >= 2 && k[0] == '~' && k[1] == '/' {
        home + k.subrange(1, k.len() as int)
    } else {
        k
    }
}

/// The host a finished block describes: named `<alias> (ssh config)`, the
/// host name defaulting to the alias and the user to `root`, key
/// authentication when an identity file is given and agent authentication
/// otherwise.
pub open spec fn ssh_host(alias: Seq<char>, b: SshBlockView, home: Seq<char>) -> HostView {
    HostView {
        name: alias + seq![' ', '(', 's', 's', 'h', ' ', 'c', 'o', 'n', 'f', 'i', 'g', ')'],
        host: match b.hostname {
            Some(h) => h,
            None => alias,
        },
        port: b.port,
        username: match b.user {
            Some(u) => u,
            None => seq!['r', 'o', 'o', 't'],
        },
        auth_type: if b.key is Some {
            seq!['k', 'e', 'y']
        } else {
            seq!['a', 'g', 'e', 'n', 't']
        },
        key_path: match b.key {
            Some(k) => Some(expand_home(k, home)),
            None => None,
        },
        proxy_jump: None,
        x11_forward: false,
        x11_trusted: false,
        group: Seq::empty(),
        tags: Seq::empty(),
    }
}

/// Finish a block: it adds a host unless it has no alias or its alias is a
/// wildcard pattern (holds `*` or `?`).
pub open spec fn flush_block(hosts: Seq<HostView>, b: SshBlockView, home: Seq<char>) -> Seq<HostView> {
    match b.alias {
        None => hosts,
        Some(a) => if a.contains('*') || a.contains('?') {
            hosts
        } else {
            hosts.push(ssh_host(a, b, home))
        },
    }
}

/// Read one line. `Host` finishes the current block and opens a new one;
/// `HostName`, `User`, `Port` (22 when it does not parse) and `IdentityFile`
/// (keywords in any case) set the current block's fields; other lines change
/// nothing.
pub open spec fn ssh_step(st: SshParseView, line: Seq<char>, home: Seq<char>) -> SshParseView {
    match spec_split_directive(line) {
        None => st,
        Some((kw, v)) => {
            let k = lowercase(kw);
            let b = st.block;
            if k == seq!['h', 'o', 's', 't'] {
                SshParseView { hosts: flush_block(st.hosts, b, home), block: fresh_block(Some(v)) }
            } else if k == seq!['h', 'o', 's', 't', 'n', 'a', 'm', 'e'] {
                SshParseView {
                    hosts: st.hosts,
                    block: SshBlockView { alias: b.alias, hostname: Some(v), user: b.user, port: b.port, key: b.key },
                }
            } else if k == seq!['u', 's', 'e', 'r'] {
                SshParseView {
                    hosts: st.hosts,
                    block: SshBlockView { alias: b.alias, hostname: b.hostname, user: Some(v), port: b.port, key: b.key },
                }
            } else if k == seq!['p', 'o', 'r', 't'] {
                let port = match spec_parse_u16(v) {
                    Some(p) => p,
                    None => 22u16,
                };
                SshParseView {
                    hosts: st.hosts,
                    block: SshBlockView { alias: b.alias, hostname: b.hostname, user: b.user, port, key: b.key },
                }
            } else if k == seq!['i', 'd', 'e', 'n', 't', 'i', 't', 'y', 'f', 'i', 'l', 'e'] {
                SshParseView {
                    hosts: st.hosts,
                    block: SshBlockView { alias: b.alias, hostname: b.hostname, user: b.user, port: b.port, key: Some(v) },
                }
            } else {
                st
            }
        },
    }
}

/// The lines of `s`, split at `\n`. A `\r` before the `\n` stays on the line;
/// every line is trimmed before it is read, which drops it.
pub open spec fn lines_of(s: Seq<char>) -> Seq<Seq<char>>
    decreases s.len(),
{
    if s.len() == 0 {
        seq![Seq::empty()]
    } else {
        let p = lines_of(s.drop_last());
        if s.last() == '\n' {
            p.push(Seq::empty())
        } else {
            p.update(p.len() - 1, p.last().push(s.last()))
        }
    }
}

/// The state after reading `lines` in order.
pub open spec fn ssh_fold(lines: Seq<Seq<char>>, home: Seq<char>) -> SshParseView
    decreases lines.len(),
{
    if lines.len() == 0 {
        SshParseView { hosts: Seq::empty(), block: fresh_block(None) }
    } else {
        ssh_step(ssh_fold(lines.drop_last(), home), lines.last(), home)
    }
}

/// The hosts an SSH config text describes, in file order; `home` replaces the
/// `~` of identity files under `~/`.
pub open spec fn spec_parse_ssh_config(content: Seq<char>, home: Seq<char>) -> Seq<HostView> {
    let st = ssh_fold(lines_of(content), home);
    flush_block(st.hosts, st.block, home)
}

/// The views of a list of hosts.
pub open spec fn hosts_view(hosts: Seq<HostConfig>) -> Seq<HostView> {
    hosts.map_values(|h: HostConfig| h@)
}

struct SshState {
    hosts: Vec<HostConfig>,
    alias: Option<String>,
    hostname: Option<String>,
    user: Option<String>,
    port: u16,
    key: Option<String>,
}

spec fn state_view(st: SshState) -> SshParseView {
    SshParseView {
        hosts: hosts_view(st.hosts@),
        block: SshBlockView {
            alias: opt_view(st.alias),
            hostname: opt_view(st.hostname),
            user: opt_view(st.user),
            port: st.port,
            key: opt_view(st.key),
        },
    }
}

fn copy_string(s: &String) -> (r: String)
    ensures
        r@ == s@,
{
    s.clone()
}

fn contains_char(v: &Vec<char>, c: char) -> (r: bool)
    ensures
        r == v@.contains(c),
{
    let mut i: usize = 0;
    while i < v.len()
        invariant
            i <= v.len(),
            forall|k: int| 0 <= k < i ==> #[trigger] v@[k] != c,
        decreases v.len() - i,
    {
        if v[i] == c {
            assert(v@[i as int] == c);
            return true;
        }
        i = i + 1;
    }
    false
}

fn expand_key_path(k: &String, home: &str) -> (r: String)
    ensures
        r@ == expand_home(k@, home@),
{
    let v = chars_of(k.as_str());
    if v.len() >= 2 && v[0] == '~' && v[1] == '/' {
        let mut out = String::from_str(home);
        let rest = string_from_range(&v, 1, v.len());
        out.append(rest.as_str());
        out
    } else {
        copy_string(k)
    }
}

fn flush(st: &mut SshState, home: &str)
    ensures
        state_view(*final(st)).hosts == flush_block(state_view(*old(st)).hosts, state_view(*old(st)).block, home@),
{
    let alias = match &st.alias {
        Some(a) => a,
        None => {
            return;
        },
    };
    let av = chars_of(alias.as_str());
    if contains_char(&av, '*') || contains_char(&av, '?') {
        return;
    }
    proof {
        reveal_strlit(" (ssh config)");
        reveal_strlit("root");
        reveal_strlit("key");
        reveal_strlit("agent");
    }
    let mut name = copy_string(alias);
    name.append(" (ssh config)");
    let host = match &st.hostname {
        Some(h) => copy_string(h),
        None => copy_string(alias),
    };
    let username = match &st.user {
        Some(u) => copy_string(u),
        None => String::from_str("root"),
    };
    let auth_type = if st.key.is_some() {
        String::from_str("key")
    } else {
        String::from_str("agent")
    };
    let key_path = match &st.key {
        Some(k) => Some(expand_key_path(k, home)),
        None => None,
    };
    let h = HostConfig {
        name,
        host,
        port: st.port,
        username,
        auth_type,
        key_path,
        proxy_jump: None,
        x11_forward: false,
        x11_trusted: false,
        group: String::new(),
        tags: Vec::new(),
    };
    let ghost old_hosts = st.hosts@;
    st.hosts.push(h);
    proof {
        let b = state_view(*old(st)).block;
        assert(h@.tags =~= Seq::<Seq<char>>::empty());
        assert(h@.name =~= av@ + seq![' ', '(', 's', 's', 'h', ' ', 'c', 'o', 'n', 'f', 'i', 'g', ')']);
        assert(h@.username == ssh_host(av@, b, home@).username);
        assert(h@.auth_type == ssh_host(av@, b, home@).auth_type);
        assert(h@.host == ssh_host(av@, b, home@).host);
        assert(h@.key_path == ssh_host(av@, b, home@).key_path);
        assert(h@.group =~= Seq::<char>::empty());
        assert(h@ == ssh_host(av@, b, home@));
        assert(hosts_view(st.hosts@) =~= hosts_view(old_hosts).push(h@));
    }
}

fn read_line(st: &mut SshState, line: &Vec<char>, home: &str)
    ensures
        state_view(*final(st)) == ssh_step(state_view(*old(st)), line@, home@),
{
    let (kw, v) = match split_directive(line) {
        Some(kv) => kv,
        None => {
            return;
        },
    };
    let k = lowercase_range(&kw, 0, kw.len());
    assert(kw@.subrange(0, kw@.len() as int) =~= kw@);
    let value = string_from_range(&v, 0, v.len());
    assert(v@.subrange(0, v@.len() as int) =~= v@);
    if word_is(&k, &['h', 'o', 's', 't']) {
        flush(st, home);
        st.alias = Some(value);
        st.hostname = None;
        st.user = None;
        st.port = 22;
        st.key = None;
    } else if word_is(&k, &['h', 'o', 's', 't', 'n', 'a', 'm', 'e']) {
        st.hostname = Some(value);
    } else if word_is(&k, &['u', 's', 'e', 'r']) {
        st.user = Some(value);
    } else if word_is(&k, &['p', 'o', 'r', 't']) {
        st.port = match parse_u16(&v) {
            Some(p) => p,
            None => 22,
        };
    } else if word_is(&k, &['i', 'd', 'e', 'n', 't', 'i', 't', 'y', 'f', 'i', 'l', 'e']) {
        st.key = Some(value);
    }
}

proof fn lemma_lines_nonempty(s: Seq<char>)
    ensures
        lines_of(s).len() >= 1,
    decreases s.len(),
{
    if s.len() > 0 {
        lemma_lines_nonempty(s.drop_last());
    }
}

/// Parse the text of an SSH config file into host entries: one per `Host`
/// block, in file order, skipping wildcard patterns (`Host *`). `home` is the
/// home directory that replaces `~` in `IdentityFile ~/…`.
pub fn parse_ssh_config(content: &str, home: &str) -> (hosts: Vec<HostConfig>)
    ensures
        hosts_view(hosts@) == spec_parse_ssh_config(content@, home@),
{
    let v = chars_of(content);
    let mut st = SshState { hosts: Vec::new(), alias: None, hostname: None, user: None, port: 22, key: None };
    let ghost mut done: Seq<Seq<char>> = Seq::empty();
    assert(hosts_view(st.hosts@) =~= Seq::<HostView>::empty());
    assert(v@.subrange(0, 0) =~= Seq::<char>::empty());
    assert(lines_of(v@.subrange(0, 0)) =~= done.push(v@.subrange(0, 0)));
    let mut start: usize = 0;
    let mut i: usize = 0;
    while i < v.len()
        invariant
            start <= i <= v.len(),
            lines_of(v@.subrange(0, i as int)) == done.push(v@.subrange(start as int, i as int)),
            state_view(st) == ssh_fold(done, home@),
        decreases v.len() - i,
    {
        proof {
            let s2 = v@.subrange(0, i + 1);
            assert(s2.drop_last() =~= v@.subrange(0, i as int));
            assert(s2.last() == v@[i as int]);
            lemma_lines_nonempty(s2.drop_last());
            if v@[i as int] == '\n' {
                assert(lines_of(s2) == lines_of(v@.subrange(0, i as int)).push(Seq::empty()));
            }
        }
        if v[i] == '\n' {
            let line = vec_range(&v, start, i);
            read_line(&mut st, &line, home);
            proof {
                let cur = v@.subrange(start as int, i as int);
                let d2 = done.push(cur);
                assert(d2.drop_last() =~= done);
                assert(v@.subrange(i + 1, i + 1) =~= Seq::<char>::empty());
                assert(lines_of(v@.subrange(0, i + 1)) == done.push(cur).push(Seq::empty()));
                assert(lines_of(v@.subrange(0, i + 1)) =~= d2.push(v@.subrange(i + 1, i + 1)));
                done = d2;
            }
            start = i + 1;
        } else {
            proof {
                assert(v@.subrange(start as int, i + 1) =~= v@.subrange(start as int, i as int).push(v@[i as int]));
                assert(lines_of(v@.subrange(0, i + 1)) =~= done.push(v@.subrange(start as int, i + 1)));
            }
        }
        i = i + 1;
    }
    let line = vec_range(&v, start, v.len());
    read_line(&mut st, &line, home);
    proof {
        let all = done.push(v@.subrange(start as int, v.len() as int));
        assert(v@.subrange(0, v.len() as int) =~= v@);
        assert(all.drop_last() =~= done);
    }
    flush(&mut st, home);
    st.hosts
}

// ---- connection history ----

/// How often, and when last, a host was connected to.
#[derive(Clone, Debug)]
pub struct HistoryEntry {
    /// The host's key, `"username@host:port"`.
    pub key: String,
    pub count: u32,
    /// Unix time (seconds) of the last connection.
    pub last_connected: u64,
}

/// The contents of a history entry: key, count and last connection time.
pub open spec fn entry_view(e: HistoryEntry) -> (Seq<char>, u32, u64) {
    (e.key@, e.count, e.last_connected)
}

/// The history as stored: the lookup key of each entry and its contents.
pub open spec fn history_view(h: Seq<(String, HistoryEntry)>) -> Seq<(Seq<char>, (Seq<char>, u32, u64))> {
    h.map_values(|p: (String, HistoryEntry)| (p.0@, entry_view(p.1)))
}

/// The history key of a host: `"username@host:port"`.
pub open spec fn host_key(h: HostView) -> Seq<char> {
    h.username + seq!['@'] + h.host + seq![':'] + decimal(h.port as nat)
}

/// The position of the first history entry stored under `key`.
pub open spec fn find_key(hist: Seq<(Seq<char>, (Seq<char>, u32, u64))>, key: Seq<char>) -> Option<int>
    decreases hist.len(),
{
    if hist.len() == 0 {
        None
    } else if hist[0].0 == key {
        Some(0)
    } else {
        match find_key(hist.drop_first(), key) {
            Some(i) => Some(i + 1),
            None => None,
        }
    }
}

proof fn lemma_find_key_at(hist: Seq<(Seq<char>, (Seq<char>, u32, u64))>, key: Seq<char>, i: int)
    requires
        0 <= i <= hist.len(),
        forall|j: int| 0 <= j < i ==> #[trigger] hist[j].0 != key,
        i == hist.len() || hist[i].0 == key,
    ensures
        find_key(hist, key) == if i < hist.len() {
            Some(i)
        } else {
            None::<int>
        },
    decreases i,
{
    if i > 0 {
        let t = hist.drop_first();
        assert forall|j: int| 0 <= j < i - 1 implies #[trigger] t[j].0 != key by {
            assert(t[j] == hist[j + 1]);
        }
        if i - 1 < t.len() {
            assert(t[i - 1] == hist[i]);
        }
        lemma_find_key_at(t, key, i - 1);
    }
}

/// How many times a host was connected to; 0 without history.
pub open spec fn freq_of(hist: Seq<(Seq<char>, (Seq<char>, u32, u64))>, h: HostView) -> u32 {
    match find_key(hist, host_key(h)) {
        Some(i) => hist[i].1.1,
        None => 0,
    }
}

/// The history after a connection to the host keyed `key` at time `now`: the
/// entry's count goes up by one and its time becomes `now`; a host without an
/// entry gets one with count 1.
pub open spec fn record_in(hist: Seq<(Seq<char>, (Seq<char>, u32, u64))>, key: Seq<char>, now: u64) -> Seq<(Seq<char>, (Seq<char>, u32, u64))> {
    match find_key(hist, key) {
        Some(i) => hist.update(i, (hist[i].0, (hist[i].1.0, (hist[i].1.1 + 1) as u32, now))),
        None => hist.push((key, (key, 1u32, now))),
    }
}

fn host_key_string(h: &HostConfig) -> (r: String)
    ensures
        r@ == host_key(h@),
{
    proof {
        reveal_strlit("@");
        reveal_strlit(":");
    }
    let mut k = copy_string(&h.username);
    k.append("@");
    k.append(h.host.as_str());
    k.append(":");
    let digits = decimal_chars(h.port as u64);
    let ds = string_from_chars(&digits);
    k.append(ds.as_str());
    assert(k@ =~= host_key(h@));
    k
}

fn find_entry(hist: &Vec<(String, HistoryEntry)>, key: &String) -> (r: Option<usize>)
    ensures
        match r {
            Some(i) => i < hist@.len() && find_key(history_view(hist@), key@) == Some(i as int),
            None => find_key(history_view(hist@), key@) is None,
        },
{
    let ghost hv = history_view(hist@);
    let mut i: usize = 0;
    while i < hist.len()
        invariant
            i <= hist.len(),
            hv == history_view(hist@),
            forall|j: int| 0 <= j < i ==> #[trigger] hv[j].0 != key@,
        decreases hist.len() - i,
    {
        if hist[i].0 == *key {
            proof {
                lemma_find_key_at(hv, key@, i as int);
            }
            return Some(i);
        }
        i = i + 1;
    }
    proof {
        lemma_find_key_at(hv, key@, i as int);
    }
    None
}

// ---- filtering ----

/// `tags` joined by single spaces.
pub open spec fn join_space(tags: Seq<Seq<char>>) -> Seq<char>
    decreases tags.len(),
{
    if tags.len() == 0 {
        Seq::empty()
    } else if tags.len() == 1 {
        tags[0]
    } else {
        join_space(tags.drop_last()) + seq![' '] + tags.last()
    }
}

/// The text a query is matched against: `"<name> <user>@<host> <tags> <group>"`.
pub open spec fn haystack(h: HostView) -> Seq<char> {
    h.name + seq![' '] + h.username + seq!['@'] + h.host + seq![' '] + join_space(h.tags) + seq![' ']
        + h.group
}

/// The text a host is matched against holds, in order and separated by
/// single characters, its display name, its user name, its address, its tags
/// and its group: `name`, a space, `user`, `@`, `host`, a space, the tags
/// joined by spaces, a space, `group`. So a query is matched against the
/// address as well as the names, the tags and the group.
pub proof fn lemma_haystack_parts(h: HostView)
    ensures
        ({
            let t = haystack(h);
            let a = h.name.len() as int;
            let u = a + 1 + h.username.len();
            let e = u + 1 + h.host.len();
            let g = e + 1 + join_space(h.tags).len();
            &&& t.len() == g + 1 + h.group.len()
            &&& t.subrange(0, a) == h.name
            &&& t[a] == ' '
            &&& t.subrange(a + 1, u) == h.username
            &&& t[u] == '@'
            &&& t.subrange(u + 1, e) == h.host
            &&& t[e] == ' '
            &&& t.subrange(e + 1, g) == join_space(h.tags)
            &&& t[g] == ' '
            &&& t.subrange(g + 1, t.len() as int) == h.group
        }),
{
    let t = haystack(h);
    let a = h.name.len() as int;
    let u = a + 1 + h.username.len();
    let e = u + 1 + h.host.len();
    let g = e + 1 + join_space(h.tags).len();
    assert(t.subrange(0, a) =~= h.name);
    assert(t.subrange(a + 1, u) =~= h.username);
    assert(t.subrange(u + 1, e) =~= h.host);
    assert(t.subrange(e + 1, g) =~= join_space(h.tags));
    assert(t.subrange(g + 1, t.len() as int) =~= h.group);
}

/// The host carries the tag filter's tag and belongs to the group filter's
/// group (an absent filter lets every host through).
pub open spec fn passes_filters(h: HostView, tag: Option<Seq<char>>, group: Option<Seq<char>>) -> bool {
    &&& match tag {
        Some(t) => h.tags.contains(t),
        None => true,
    }
    &&& match group {
        Some(g) => h.group == g,
        None => true,
    }
}

/// The host's score for the query: 0 for the empty query, the fuzzy score
/// of its haystack otherwise (`None` when it does not match).
pub open spec fn host_score(h: HostView, query: Seq<char>) -> Option<i64> {
    if query.len() == 0 {
        Some(0i64)
    } else {
        skim_score(haystack(h), query)
    }
}

fn joined_tags(tags: &Vec<String>) -> (r: String)
    ensures
        r@ == join_space(tags@.map_values(|t: String| t@)),
{
    let ghost tv = tags@.map_values(|t: String| t@);
    let mut out = String::new();
    let mut i: usize = 0;
    while i < tags.len()
        invariant
            i <= tags.len(),
            tv == tags@.map_values(|t: String| t@),
            out@ == join_space(tv.take(i as int)),
        decreases tags.len() - i,
    {
        if i > 0 {
            push_char(&mut out, ' ');
        }
        out.append(tags[i].as_str());
        proof {
            let p = tv.take(i + 1);
            assert(p.drop_last() =~= tv.take(i as int));
            assert(p.last() == tags@[i as int]@);
            if i == 0 {
                assert(p.len() == 1);
            }
        }
        i = i + 1;
    }
    assert(tv.take(tags.len() as int) =~= tv);
    out
}

fn haystack_of(h: &HostConfig) -> (r: String)
    ensures
        r@ == haystack(h@),
{
    let mut out = copy_string(&h.name);
    push_char(&mut out, ' ');
    out.append(h.username.as_str());
    push_char(&mut out, '@');
    out.append(h.host.as_str());
    push_char(&mut out, ' ');
    let tags = joined_tags(&h.tags);
    out.append(tags.as_str());
    push_char(&mut out, ' ');
    out.append(h.group.as_str());
    assert(out@ =~= haystack(h@));
    out
}

fn has_tag(tags: &Vec<String>, tag: &String) -> (r: bool)
    ensures
        r == tags@.map_values(|t: String| t@).contains(tag@),
{
    let ghost tv = tags@.map_values(|t: String| t@);
    let mut i: usize = 0;
    while i < tags.len()
        invariant
            i <= tags.len(),
            tv == tags@.map_values(|t: String| t@),
            forall|j: int| 0 <= j < i ==> #[trigger] tv[j] != tag@,
        decreases tags.len() - i,
    {
        if tags[i] == *tag {
            assert(tv[i as int] == tag@);
            return true;
        }
        i = i + 1;
    }
    false
}

fn passes(h: &HostConfig, tag: &Option<String>, group: &Option<String>) -> (r: bool)
    ensures
        r == passes_filters(h@, opt_view(*tag), opt_view(*group)),
{
    let tag_ok = match tag {
        Some(t) => has_tag(&h.tags, t),
        None => true,
    };
    let group_ok = match group {
        Some(g) => h.group == *g,
        None => true,
    };
    tag_ok && group_ok
}

// ---- the picker ----

/// Host `h` is already listed: some host of `hosts` has its address and port.
pub open spec fn listed(hosts: Seq<HostView>, h: HostView) -> bool {
    exists|i: int| 0 <= i < hosts.len() && hosts[i].host == h.host && hosts[i].port == h.port
}

/// The configured hosts followed by the SSH config hosts whose address and
/// port are not listed yet.
pub open spec fn merge_hosts(hosts: Seq<HostView>, ssh: Seq<HostView>) -> Seq<HostView>
    decreases ssh.len(),
{
    if ssh.len() == 0 {
        hosts
    } else {
        let m = merge_hosts(hosts, ssh.drop_last());
        if listed(m, ssh.last()) {
            m
        } else {
            m.push(ssh.last())
        }
    }
}

fn merge(hosts: Vec<HostConfig>, ssh_hosts: Vec<HostConfig>) -> (r: Vec<HostConfig>)
    ensures
        hosts_view(r@) == merge_hosts(hosts_view(hosts@), hosts_view(ssh_hosts@)),
{
    let ghost base = hosts_view(hosts@);
    let ghost sv = hosts_view(ssh_hosts@);
    let mut merged = hosts;
    let mut ssh = ssh_hosts;
    let mut i: usize = 0;
    let n = ssh.len();
    assert(sv.take(0) =~= Seq::<HostView>::empty());
    while ssh.len() > 0
        invariant
            n == sv.len(),
            i + ssh@.len() == n,
            forall|k: int| 0 <= k < ssh@.len() ==> #[trigger] ssh@[k]@ == sv[i + k],
            hosts_view(merged@) == merge_hosts(base, sv.take(i as int)),
        decreases ssh.len(),
    {
        let ghost before = ssh@;
        let h = ssh.remove(0);
        proof {
            assert(h == before[0]);
            assert(h@ == sv[i as int]);
            assert forall|k: int| 0 <= k < ssh@.len() implies #[trigger] ssh@[k]@ == sv[i + 1 + k] by {
                assert(ssh@[k] == before[k + 1]);
            }
        }
        let mut already = false;
        let mut j: usize = 0;
        while j < merged.len()
            invariant
                j <= merged.len(),
                already <==> exists|k: int| 0 <= k < j && merged@[k]@.host == h@.host && merged@[k]@.port == h@.port,
            decreases merged.len() - j,
        {
            if merged[j].host == h.host && merged[j].port == h.port {
                already = true;
            }
            j = j + 1;
        }
        proof {
            let m = hosts_view(merged@);
            let p = sv.take(i + 1);
            assert(p.drop_last() =~= sv.take(i as int));
            assert(p.last() == h@);
            if already {
                let k = choose|k: int| 0 <= k < merged@.len() && merged@[k]@.host == h@.host && merged@[k]@.port == h@.port;
                assert(m[k] == merged@[k]@);
            } else {
                assert forall|k: int| 0 <= k < m.len() implies !(m[k].host == h@.host && m[k].port == h@.port) by {
                    assert(m[k] == merged@[k]@);
                }
            }
        }
        if !already {
            let ghost mv = hosts_view(merged@);
            merged.push(h);
            assert(hosts_view(merged@) =~= mv.push(h@));
        }
        i = i + 1;
    }
    assert(sv.take(n as int) =~= sv);
    merged
}

/// The candidates among the first `n` hosts, in host order: the hosts that
/// pass the filters and match the query, with their score, use count, name and
/// position.
pub open spec fn entries_upto(
    hosts: Seq<HostView>,
    hist: Seq<(Seq<char>, (Seq<char>, u32, u64))>,
    tag: Option<Seq<char>>,
    group: Option<Seq<char>>,
    query: Seq<char>,
    n: int,
) -> Seq<RankKey>
    decreases n,
{
    if n <= 0 {
        Seq::empty()
    } else {
        let e = entries_upto(hosts, hist, tag, group, query, n - 1);
        let h = hosts[n - 1];
        if passes_filters(h, tag, group) && host_score(h, query) is Some {
            e.push(
                RankKey {
                    score: host_score(h, query)->0,
                    freq: freq_of(hist, h),
                    name: h.name,
                    index: (n - 1) as usize,
                },
            )
        } else {
            e
        }
    }
}

/// There are no more candidates than hosts.
pub proof fn lemma_entries_len(
    hosts: Seq<HostView>,
    hist: Seq<(Seq<char>, (Seq<char>, u32, u64))>,
    tag: Option<Seq<char>>,
    group: Option<Seq<char>>,
    query: Seq<char>,
    n: int,
)
    requires
        0 <= n,
    ensures
        entries_upto(hosts, hist, tag, group, query, n).len() <= n,
    decreases n,
{
    if n > 0 {
        lemma_entries_len(hosts, hist, tag, group, query, n - 1);
    }
}

/// Whether the password is to be stored in or removed from the OS keychain
/// once it has been taken.
#[derive(Clone, Copy, Debug, PartialEq, Eq, Structural)]
pub enum KeychainAction {
    /// Leave the keychain as it is.
    Keep,
    /// Store the taken password.
    Store,
    /// Remove the stored password.
    Delete,
}

/// State of the floating host list.
pub struct HostManager {
    /// The configured hosts followed by those read from the SSH config.
    pub hosts: Vec<HostConfig>,
    /// The search query.
    pub query: String,
    /// Whether the panel is open.
    pub is_open: bool,
    /// Selected position in the filtered list.
    pub selected: usize,
    /// Only hosts with this tag are listed, when set.
    pub tag_filter: Option<String>,
    /// Only hosts of this group are listed, when set.
    pub group_filter: Option<String>,
    /// The connection history: each entry with the key it is looked up by.
    pub history: Vec<(String, HistoryEntry)>,
}

impl HostManager {
    /// The hosts, in list order.
    pub open spec fn hosts_spec(&self) -> Seq<HostView> {
        hosts_view(self.hosts@)
    }

    /// The connection history.
    pub open spec fn history_spec(&self) -> Seq<(Seq<char>, (Seq<char>, u32, u64))> {
        history_view(self.history@)
    }

    /// All candidates of the list.
    pub open spec fn entries(&self) -> Seq<RankKey> {
        entries_upto(
            self.hosts_spec(),
            self.history_spec(),
            opt_view(self.tag_filter),
            opt_view(self.group_filter),
            self.query@,
            self.hosts_spec().len() as int,
        )
    }

    /// The filtered list, as positions in the host list: the candidates in
    /// ranking order.
    pub open spec fn is_filtered_order(&self, order: Seq<usize>) -> bool {
        exists|sorted: Seq<RankKey>|
            #[trigger] is_ranked(sorted) && sorted.to_multiset() == self.entries().to_multiset()
                && order == indices_of(sorted)
    }

    /// The number of hosts the filtered list holds.
    pub open spec fn filtered_len(&self) -> nat {
        self.entries().len()
    }

    /// A manager over the configured hosts, the hosts read from the SSH
    /// config (those whose address and port are not configured already), and
    /// the connection history read from disk (lookup key and entry).
    pub fn new(hosts: Vec<HostConfig>, ssh_hosts: Vec<HostConfig>, history: Vec<(String, HistoryEntry)>) -> (m: Self)
        ensures
            m.hosts_spec() == merge_hosts(hosts_view(hosts@), hosts_view(ssh_hosts@)),
            m.history_spec() == history_view(history@),
            m.query@.len() == 0,
            !m.is_open,
            m.selected == 0,
            m.tag_filter is None,
            m.group_filter is None,
    {
        HostManager {
            hosts: merge(hosts, ssh_hosts),
            query: String::new(),
            is_open: false,
            selected: 0,
            tag_filter: None,
            group_filter: None,
            history,
        }
    }

    /// The hosts, in list order.
    pub fn hosts(&self) -> (r: &Vec<HostConfig>)
        ensures
            hosts_view(r@) == self.hosts_spec(),
    {
        &self.hosts
    }

    /// Open the panel with an empty query and the first entry selected.
    pub fn open(&mut self)
        ensures
            final(self).is_open,
            final(self).query@.len() == 0,
            final(self).selected == 0,
            final(self).hosts_spec() == old(self).hosts_spec(),
            final(self).history_spec() == old(self).history_spec(),
            final(self).tag_filter == old(self).tag_filter,
            final(self).group_filter == old(self).group_filter,
    {
        self.query = String::new();
        self.selected = 0;
        self.is_open = true;
    }

    /// Close the panel and clear the query.
    pub fn close(&mut self)
        ensures
            !final(self).is_open,
            final(self).query@.len() == 0,
            final(self).selected == old(self).selected,
            final(self).hosts_spec() == old(self).hosts_spec(),
            final(self).history_spec() == old(self).history_spec(),
            final(self).tag_filter == old(self).tag_filter,
            final(self).group_filter == old(self).group_filter,
    {
        self.is_open = false;
        self.query = String::new();
    }

    /// Append a character to the query; the selection goes back to the top.
    pub fn push_char(&mut self, ch: char)
        ensures
            final(self).query@ == old(self).query@.push(ch),
            final(self).selected == 0,
            final(self).is_open == old(self).is_open,
            final(self).hosts_spec() == old(self).hosts_spec(),
            final(self).history_spec() == old(self).history_spec(),
            final(self).tag_filter == old(self).tag_filter,
            final(self).group_filter == old(self).group_filter,
    {
        push_char(&mut self.query, ch);
        self.selected = 0;
    }

    /// Drop the query's last character; the selection goes back to the top.
    pub fn pop_char(&mut self)
        ensures
            final(self).query@ == if old(self).query@.len() > 0 {
                old(self).query@.drop_last()
            } else {
                old(self).query@
            },
            final(self).selected == 0,
            final(self).is_open == old(self).is_open,
            final(self).hosts_spec() == old(self).hosts_spec(),
            final(self).history_spec() == old(self).history_spec(),
            final(self).tag_filter == old(self).tag_filter,
            final(self).group_filter == old(self).group_filter,
    {
        pop_char(&mut self.query);
        self.selected = 0;
    }

    /// The hosts of the list as it is shown: those passing the tag and group
    /// filters and matching the query, best score first, then the most
    /// connected, then by name; hosts equal on all three keep their order.
    pub fn filtered(&self) -> (r: Vec<&HostConfig>)
        ensures
            exists|order: Seq<usize>|
                #[trigger] self.is_filtered_order(order) && order.len() == r@.len() && forall|k: int|
                    0 <= k < r@.len() ==> order[k] < self.hosts_spec().len() && (*r@[k])@
                        == self.hosts_spec()[order[k] as int],
    {
        let order = self.filtered_order();
        let ghost ov = order@;
        let mut out: Vec<&HostConfig> = Vec::new();
        let mut k: usize = 0;
        while k < order.len()
            invariant
                k <= order.len(),
                ov == order@,
                forall|j: int| 0 <= j < order@.len() ==> order@[j] < self.hosts@.len(),
                out@.len() == k,
                forall|j: int| 0 <= j < k ==> (*out@[j])@ == self.hosts_spec()[ov[j] as int],
            decreases order.len() - k,
        {
            out.push(&self.hosts[order[k]]);
            k = k + 1;
        }
        out
    }

    /// The filtered list as positions in the host list.
    pub fn filtered_order(&self) -> (r: Vec<usize>)
        ensures
            self.is_filtered_order(r@),
            forall|j: int| 0 <= j < r@.len() ==> r@[j] < self.hosts_spec().len(),
            r@.len() == self.filtered_len(),
            r@.len() <= self.hosts_spec().len(),
    {
        let query_empty = self.query.as_str().is_empty();
        let mut items: Vec<Scored> = Vec::new();
        let mut i: usize = 0;
        while i < self.hosts.len()
            invariant
                i <= self.hosts.len(),
                query_empty == (self.query@.len() == 0),
                keys_of(items@) == entries_upto(self.hosts_spec(), self.history_spec(), opt_view(self.tag_filter), opt_view(self.group_filter), self.query@, i as int),
                forall|j: int| 0 <= j < items@.len() ==> #[trigger] items@[j].index < i,
                distinct_indices(keys_of(items@)),
            decreases self.hosts.len() - i,
        {
            let h = &self.hosts[i];
            assert(self.hosts_spec()[i as int] == h@);
            if passes(h, &self.tag_filter, &self.group_filter) {
                let score = if query_empty {
                    Some(0i64)
                } else {
                    let hay = haystack_of(h);
                    fuzzy_match(hay.as_str(), self.query.as_str())
                };
                match score {
                    Some(sc) => {
                        let key = host_key_string(h);
                        let freq = match find_entry(&self.history, &key) {
                            Some(e) => self.history[e].1.count,
                            None => 0,
                        };
                        let ghost before = keys_of(items@);
                        let item = Scored { score: sc, freq, name: chars_of(h.name.as_str()), index: i };
                        items.push(item);
                        proof {
                            assert(keys_of(items@) =~= before.push(item@));
                        }
                    },
                    None => {},
                }
            }
            i = i + 1;
        }
        assert forall|j: int| 0 <= j < keys_of(items@).len() implies #[trigger] keys_of(items@)[j].index
            < self.hosts_spec().len() by {
            assert(keys_of(items@)[j].index == items@[j].index);
        }
        let r = rank(items);
        proof {
            let sorted = choose|sorted: Seq<RankKey>|
                #[trigger] is_ranked(sorted) && sorted.to_multiset() == keys_of(items@).to_multiset()
                    && r@ == indices_of(sorted);
            assert(self.is_filtered_order(r@));
            let e = keys_of(items@);
            sorted.to_multiset_ensures();
            e.to_multiset_ensures();
            assert(sorted.len() == e.len());
            lemma_entries_len(
                self.hosts_spec(),
                self.history_spec(),
                opt_view(self.tag_filter),
                opt_view(self.group_filter),
                self.query@,
                self.hosts_spec().len() as int,
            );
            assert forall|j: int| 0 <= j < r@.len() implies r@[j] < self.hosts_spec().len() by {
                assert(sorted.contains(sorted[j]));
                assert(sorted.to_multiset().count(sorted[j]) > 0);
                assert(e.contains(sorted[j]));
                let k = choose|k: int| 0 <= k < e.len() && e[k] == sorted[j];
                assert(e[k].index < self.hosts_spec().len());
            }
        }
        r
    }

    /// Move the selection down one entry, wrapping to the top; nothing happens
    /// on an empty list.
    pub fn select_next(&mut self)
        ensures
            final(self).selected == next_index(old(self).selected, old(self).filtered_len()),
            final(self).query == old(self).query,
            final(self).is_open == old(self).is_open,
            final(self).hosts_spec() == old(self).hosts_spec(),
            final(self).history_spec() == old(self).history_spec(),
            final(self).tag_filter == old(self).tag_filter,
            final(self).group_filter == old(self).group_filter,
    {
        let count = self.filtered_order().len();
        if count > 0 {
            let s = self.selected % count;
            assert((s + 1) % (count as int) == (self.selected + 1) % (count as int)) by (nonlinear_arith)
                requires
                    s == self.selected % count,
                    count > 0,
            ;
            assert((s + 1) % (count as int) == if s + 1 == count { 0 } else { s + 1 }) by (nonlinear_arith)
                requires
                    s < count,
                    count > 0,
            ;
            self.selected = if s + 1 == count {
                0
            } else {
                s + 1
            };
        }
    }

    /// Move the selection up one entry, wrapping to the bottom; nothing
    /// happens on an empty list.
    pub fn select_prev(&mut self)
        ensures
            final(self).selected == prev_index(old(self).selected, old(self).filtered_len()),
            final(self).query == old(self).query,
            final(self).is_open == old(self).is_open,
            final(self).hosts_spec() == old(self).hosts_spec(),
            final(self).history_spec() == old(self).history_spec(),
            final(self).tag_filter == old(self).tag_filter,
            final(self).group_filter == old(self).group_filter,
    {
        let count = self.filtered_order().len();
        if count > 0 {
            self.selected = if self.selected == 0 {
                count - 1
            } else {
                self.selected - 1
            };
        }
    }

    /// The selected host of the filtered list, if the selection is inside it.
    pub fn selected_host(&self) -> (r: Option<&HostConfig>)
        ensures
            exists|order: Seq<usize>|
                #[trigger] self.is_filtered_order(order) && if self.selected < order.len() {
                    r is Some && (*r->0)@ == self.hosts_spec()[order[self.selected as int] as int]
                } else {
                    r is None
                },
    {
        let order = self.filtered_order();
        if self.selected < order.len() {
            Some(&self.hosts[order[self.selected]])
        } else {
            None
        }
    }

    /// The history entry of a host, if it was ever connected to.
    pub fn history_for(&self, host: &HostConfig) -> (r: Option<&HistoryEntry>)
        ensures
            match find_key(self.history_spec(), host_key(host@)) {
                Some(i) => r is Some && entry_view(*r->0) == self.history_spec()[i].1,
                None => r is None,
            },
    {
        let key = host_key_string(host);
        match find_entry(&self.history, &key) {
            Some(i) => Some(&self.history[i].1),
            None => None,
        }
    }

    /// Record a connection to `host` at `now` (Unix seconds): its history
    /// entry counts one more connection and takes that time (an entry is
    /// created on the first connection). Writing the history to disk is the
    /// caller's job.
    pub fn record_connection_at(&mut self, host: &HostConfig, now: u64)
        requires
            match find_key(old(self).history_spec(), host_key(host@)) {
                Some(i) => old(self).history_spec()[i].1.1 < u32::MAX,
                None => true,
            },
        ensures
            final(self).history_spec() == record_in(old(self).history_spec(), host_key(host@), now),
            final(self).hosts_spec() == old(self).hosts_spec(),
            final(self).query == old(self).query,
            final(self).is_open == old(self).is_open,
            final(self).selected == old(self).selected,
            final(self).tag_filter == old(self).tag_filter,
            final(self).group_filter == old(self).group_filter,
    {
        let key = host_key_string(host);
        let ghost hv = history_view(self.history@);
        match find_entry(&self.history, &key) {
            Some(i) => {
                let count = self.history[i].1.count + 1;
                let entry = HistoryEntry {
                    key: copy_string(&self.history[i].1.key),
                    count,
                    last_connected: now,
                };
                let lookup = copy_string(&self.history[i].0);
                self.history[i] = (lookup, entry);
                proof {
                    assert(history_view(self.history@) =~= record_in(hv, key@, now));
                }
            },
            None => {
                let entry = HistoryEntry { key: copy_string(&key), count: 1, last_connected: now };
                self.history.push((key, entry));
                proof {
                    assert(history_view(self.history@) =~= record_in(hv, key@, now));
                }
            },
        }
    }

    /// Record a connection to `host` at the current time (see
    /// `record_connection_at`).
    pub fn record_connection(&mut self, host: &HostConfig)
        requires
            match find_key(old(self).history_spec(), host_key(host@)) {
                Some(i) => old(self).history_spec()[i].1.1 < u32::MAX,
                None => true,
            },
        ensures
            exists|now: u64|
                final(self).history_spec() == #[trigger] record_in(old(self).history_spec(), host_key(host@), now),
            final(self).hosts_spec() == old(self).hosts_spec(),
            final(self).query == old(self).query,
            final(self).is_open == old(self).is_open,
            final(self).selected == old(self).selected,
            final(self).tag_filter == old(self).tag_filter,
            final(self).group_filter == old(self).group_filter,
    {
        let t = unix_now();
        let now: u64 = if t < 0 {
            0
        } else {
            t as u64
        };
        self.record_connection_at(host, now);
    }

    /// Every tag of every host, once each, in sorted order.
    pub fn all_tags(&self) -> (r: Vec<String>)
        ensures
            strictly_sorted(strings_view(r@)),
            forall|t: Seq<char>|
                #[trigger] strings_view(r@).contains(t) <==> exists|i: int|
                    0 <= i < self.hosts_spec().len() && #[trigger] self.hosts_spec()[i].tags.contains(t),
    {
        let mut list: Vec<Vec<char>> = Vec::new();
        let mut i: usize = 0;
        while i < self.hosts.len()
            invariant
                i <= self.hosts.len(),
                strictly_sorted(words_view(list@)),
                forall|t: Seq<char>|
                    #[trigger] words_view(list@).contains(t) <==> exists|k: int|
                        0 <= k < i && #[trigger] self.hosts_spec()[k].tags.contains(t),
            decreases self.hosts.len() - i,
        {
            let tags = &self.hosts[i].tags;
            let ghost tv = tags@.map_values(|s: String| s@);
            assert(self.hosts_spec()[i as int].tags == tv);
            let mut j: usize = 0;
            while j < tags.len()
                invariant
                    i < self.hosts.len(),
                    j <= tags.len(),
                    tags == &self.hosts@[i as int].tags,
                    tv == tags@.map_values(|s: String| s@),
                    self.hosts_spec()[i as int].tags == tv,
                    strictly_sorted(words_view(list@)),
                    forall|t: Seq<char>|
                        #[trigger] words_view(list@).contains(t) <==> (exists|k: int|
                            0 <= k < i && #[trigger] self.hosts_spec()[k].tags.contains(t)) || tv.take(
                            j as int,
                        ).contains(t),
                decreases tags.len() - j,
            {
                let w = chars_of(tags[j].as_str());
                assert(w@ == tv[j as int]);
                let ghost old_list = words_view(list@);
                insert_sorted_unique(&mut list, w);
                proof {
                    assert forall|t: Seq<char>| tv.take(j + 1).contains(t) <==> (tv.take(j as int).contains(t)
                        || t == tv[j as int]) by {
                        if tv.take(j + 1).contains(t) {
                            let k = choose|k: int| 0 <= k < j + 1 && #[trigger] tv.take(j + 1)[k] == t;
                            if k < j {
                                assert(tv.take(j as int)[k] == t);
                            }
                        }
                        if tv.take(j as int).contains(t) {
                            let k = choose|k: int| 0 <= k < j && #[trigger] tv.take(j as int)[k] == t;
                            assert(tv.take(j + 1)[k] == t);
                        }
                        if t == tv[j as int] {
                            assert(tv.take(j + 1)[j as int] == t);
                        }
                    }
                    assert forall|t: Seq<char>|
                        #[trigger] words_view(list@).contains(t) <==> (exists|k: int|
                            0 <= k < i && #[trigger] self.hosts_spec()[k].tags.contains(t)) || tv.take(
                            j + 1,
                        ).contains(t) by {
                        assert(words_view(list@).contains(t) <==> (old_list.contains(t) || t == tv[j as int]));
                        assert(tv.take(j + 1).contains(t) <==> (tv.take(j as int).contains(t) || t == tv[j as int]));
                    }
                }
                j = j + 1;
            }
            proof {
                assert(tv.take(tags.len() as int) =~= tv);
                assert forall|t: Seq<char>|
                    #[trigger] words_view(list@).contains(t) <==> exists|k: int|
                        0 <= k < i + 1 && #[trigger] self.hosts_spec()[k].tags.contains(t) by {
                    if tv.contains(t) {
                        assert(self.hosts_spec()[i as int].tags.contains(t));
                    }
                }
            }
            i = i + 1;
        }
        strings_of(&list)
    }

    /// Every non-empty group name, once each, in sorted order.
    pub fn all_groups(&self) -> (r: Vec<String>)
        ensures
            strictly_sorted(strings_view(r@)),
            forall|g: Seq<char>|
                #[trigger] strings_view(r@).contains(g) <==> g.len() > 0 && exists|i: int|
                    0 <= i < self.hosts_spec().len() && #[trigger] self.hosts_spec()[i].group == g,
    {
        let mut list: Vec<Vec<char>> = Vec::new();
        let mut i: usize = 0;
        while i < self.hosts.len()
            invariant
                i <= self.hosts.len(),
                strictly_sorted(words_view(list@)),
                forall|g: Seq<char>|
                    #[trigger] words_view(list@).contains(g) <==> g.len() > 0 && exists|k: int|
                        0 <= k < i && #[trigger] self.hosts_spec()[k].group == g,
            decreases self.hosts.len() - i,
        {
            let w = chars_of(self.hosts[i].group.as_str());
            assert(self.hosts_spec()[i as int].group == w@);
            if w.len() > 0 {
                insert_sorted_unique(&mut list, w);
            }
            i = i + 1;
        }
        strings_of(&list)
    }

    /// Set or clear the tag filter; the selection goes back to the top.
    pub fn set_tag_filter(&mut self, tag: Option<String>)
        ensures
            final(self).tag_filter == tag,
            final(self).selected == 0,
            final(self).query == old(self).query,
            final(self).is_open == old(self).is_open,
            final(self).hosts_spec() == old(self).hosts_spec(),
            final(self).history_spec() == old(self).history_spec(),
            final(self).group_filter == old(self).group_filter,
    {
        self.tag_filter = tag;
        self.selected = 0;
    }

    /// Set or clear the group filter; the selection goes back to the top.
    pub fn set_group_filter(&mut self, group: Option<String>)
        ensures
            final(self).group_filter == group,
            final(self).selected == 0,
            final(self).query == old(self).query,
            final(self).is_open == old(self).is_open,
            final(self).hosts_spec() == old(self).hosts_spec(),
            final(self).history_spec() == old(self).history_spec(),
            final(self).tag_filter == old(self).tag_filter,
    {
        self.group_filter = group;
        self.selected = 0;
    }

    /// Replace the host list (after the configuration was reloaded), merging
    /// in the SSH config hosts as [`HostManager::new`] does; the selection goes
    /// back to the top.
    pub fn reload(&mut self, hosts: Vec<HostConfig>, ssh_hosts: Vec<HostConfig>)
        ensures
            final(self).hosts_spec() == merge_hosts(hosts_view(hosts@), hosts_view(ssh_hosts@)),
            final(self).selected == 0,
            final(self).query == old(self).query,
            final(self).is_open == old(self).is_open,
            final(self).history_spec() == old(self).history_spec(),
            final(self).tag_filter == old(self).tag_filter,
            final(self).group_filter == old(self).group_filter,
    {
        self.hosts = merge(hosts, ssh_hosts);
        self.selected = 0;
    }
}

fn strings_of(list: &Vec<Vec<char>>) -> (r: Vec<String>)
    ensures
        strings_view(r@) == words_view(list@),
{
    let mut r: Vec<String> = Vec::new();
    let mut i: usize = 0;
    while i < list.len()
        invariant
            i <= list.len(),
            strings_view(r@) == words_view(list@).take(i as int),
        decreases list.len() - i,
    {
        let s = string_from_chars(&list[i]);
        let ghost before = r@;
        r.push(s);
        assert(r@ =~= before.push(s));
        assert(strings_view(r@) =~= strings_view(before).push(s@));
        assert(strings_view(r@) =~= words_view(list@).take(i + 1));
        i = i + 1;
    }
    assert(words_view(list@).take(list.len() as int) =~= words_view(list@));
    r
}

// ---- password entry ----

/// A string in a buffer that is wiped when dropped (`zeroize::Zeroizing`).
#[verifier::external_body]
pub struct SecretText {
    inner: zeroize::Zeroizing<String>,
}

/// The text a secret buffer holds.
pub uninterp spec fn secret_text(z: SecretText) -> Seq<char>;

impl SecretText {
    /// `Zeroizing::new(s)`: `s`, to be wiped when dropped.
    #[verifier::external_body]
    pub(crate) fn new(s: String) -> (z: SecretText)
        ensures
            secret_text(z) == s@,
    {
        SecretText { inner: zeroize::Zeroizing::new(s) }
    }

    /// `String::push` on the held text.
    #[verifier::external_body]
    pub(crate) fn push(&mut self, c: char)
        ensures
            secret_text(*final(self)) == secret_text(*old(self)).push(c),
    {
        self.inner.push(c);
    }

    /// `String::pop` on the held text.
    #[verifier::external_body]
    pub(crate) fn pop(&mut self)
        ensures
            secret_text(*final(self)) == if secret_text(*old(self)).len() > 0 {
                secret_text(*old(self)).drop_last()
            } else {
                secret_text(*old(self))
            },
    {
        self.inner.pop();
    }

    /// `chars().count()` of the held text.
    #[verifier::external_body]
    pub(crate) fn char_count(&self) -> (n: usize)
        ensures
            n == secret_text(*self).len(),
    {
        self.inner.chars().count()
    }

    /// `std::mem::take` of the held text: it moves out and the buffer is left
    /// empty.
    #[verifier::external_body]
    pub(crate) fn take(&mut self) -> (s: String)
        ensures
            s@ == secret_text(*old(self)),
            secret_text(*final(self)) == Seq::<char>::empty(),
    {
        std::mem::take(&mut *self.inner)
    }

    /// The held text.
    #[verifier::external_body]
    pub fn expose(&self) -> (s: &str)
        ensures
            s@ == secret_text(*self),
    {
        self.inner.as_str()
    }
}

/// Password entry for a host that uses password authentication. The typed
/// text is held in a buffer that is wiped when dropped.
pub struct PasswordModal {
    /// The host being logged in to.
    pub host: HostConfig,
    /// The typed text, wiped when dropped.
    pub input: SecretText,
    /// Error shown after a failed login.
    pub error: Option<String>,
    /// The entry started from a password found in the OS keychain.
    pub prefilled: bool,
    /// Keep the password in the OS keychain (toggled with Tab).
    pub remember: bool,
}

impl PasswordModal {
    /// The typed text.
    pub open spec fn input_spec(&self) -> Seq<char> {
        secret_text(self.input)
    }

    /// Open the entry for `host`. `stored` is the password the OS keychain
    /// holds for the host and user, if the lookup found one: the entry then
    /// starts from it and remembering is on.
    pub fn new(host: HostConfig, stored: Option<String>) -> (m: Self)
        ensures
            m.input_spec() == match stored {
                Some(p) => p@,
                None => Seq::<char>::empty(),
            },
            m.prefilled == stored is Some,
            m.remember == stored is Some,
            m.error is None,
            m.host@ == host@,
    {
        let prefilled = stored.is_some();
        let text = match stored {
            Some(p) => p,
            None => String::new(),
        };
        PasswordModal { host, input: SecretText::new(text), error: None, prefilled, remember: prefilled }
    }

    /// Type a character.
    pub fn push_char(&mut self, ch: char)
        ensures
            final(self).input_spec() == old(self).input_spec().push(ch),
            final(self).remember == old(self).remember,
            final(self).prefilled == old(self).prefilled,
    {
        self.input.push(ch);
    }

    /// Erase the last character.
    pub fn pop_char(&mut self)
        ensures
            final(self).input_spec() == if old(self).input_spec().len() > 0 {
                old(self).input_spec().drop_last()
            } else {
                old(self).input_spec()
            },
            final(self).remember == old(self).remember,
            final(self).prefilled == old(self).prefilled,
    {
        self.input.pop();
    }

    /// How many characters were typed (for the masked display).
    pub fn input_len(&self) -> (n: usize)
        ensures
            n == self.input_spec().len(),
    {
        self.input.char_count()
    }

    /// Flip whether the password is kept in the keychain.
    pub fn toggle_remember(&mut self)
        ensures
            final(self).remember == !old(self).remember,
            final(self).input_spec() == old(self).input_spec(),
            final(self).prefilled == old(self).prefilled,
    {
        self.remember = !self.remember;
    }

    /// Take the typed password out, leaving the entry empty, together with
    /// what to do with the keychain: store a non-empty password when
    /// remembering, delete the stored one when remembering was switched off
    /// on a prefilled entry, and leave it alone otherwise.
    pub fn take_password(&mut self) -> (r: (SecretText, KeychainAction))
        ensures
            secret_text(r.0) == old(self).input_spec(),
            final(self).input_spec() == Seq::<char>::empty(),
            r.1 == if old(self).remember && old(self).input_spec().len() > 0 {
                KeychainAction::Store
            } else if !old(self).remember && old(self).prefilled {
                KeychainAction::Delete
            } else {
                KeychainAction::Keep
            },
            final(self).remember == old(self).remember,
            final(self).prefilled == old(self).prefilled,
    {
        let taken = self.input.take();
        let empty = taken.as_str().is_empty();
        let action = if self.remember && !empty {
            KeychainAction::Store
        } else if !self.remember && self.prefilled {
            KeychainAction::Delete
        } else {
            KeychainAction::Keep
        };
        (SecretText::new(taken), action)
    }
}

} // verus!
