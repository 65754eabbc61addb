//! An editor session: the secret URL prefix that the local server answers
//! under, and the session record that other commands read.
use crate::model::{is_lower_hex, random_uuid_simple};
use crate::paths::{join, join_path};
use crate::text::{decimal, lemma_decimal, owned, push_char, push_padded, string_of};
use vstd::prelude::*;

verus! {

/// The record of a running editor, kept in `.te/session.json`.
pub struct SessionInfo {
    pub pid: u32,
    pub project: String,
    pub url: String,
    pub renderer: String,
}

impl SessionInfo {
    /// The record of an editor with this process id, project file and URL,
    /// drawn by the offscreen Chromium renderer.
    pub fn new(pid: u32, project: String, url: String) -> (r: SessionInfo)
        ensures
            r.pid == pid,
            r.project@ == project@,
            r.url@ == url@,
            r.renderer@ == "chromium-offscreen"@,
    {
        SessionInfo { pid, project, url, renderer: owned("chromium-offscreen") }
    }
}

/// Where the session record of the project at `root` is kept.
pub fn session_file(root: &str) -> (r: String)
    ensures
        r@ == join(root@, ".te/session.json"@),
{
    join_path(root, ".te/session.json")
}

/// The shape of a session prefix: `/session/`, 32 lowercase hexadecimal
/// digits, and `/`.
pub open spec fn is_session_prefix(p: Seq<char>) -> bool {
    &&& p.len() == 9 + 32 + 1
    &&& p.subrange(0, 9) == "/session/"@
    &&& forall|i: int| 9 <= i < 41 ==> is_lower_hex(#[trigger] p[i])
    &&& p[41] == '/'
}

/// The session prefix made from a token: `/session/`, the token and `/`.
pub fn session_prefix_from(token: &str) -> (r: String)
    ensures
        r@ == seq!['/', 's', 'e', 's', 's', 'i', 'o', 'n', '/'] + token@ + seq!['/'],
{
    proof {
        reveal_strlit("/session/");
    }
    let mut r = owned("/session/");
    let ghost head = r@;
    let n = token.unicode_len();
    let mut i: usize = 0;
    while i < n
        invariant
            n == token@.len(),
            i <= n,
            head == seq!['/', 's', 'e', 's', 's', 'i', 'o', 'n', '/'],
            r@ == head + token@.take(i as int),
        decreases n - i,
    {
        push_char(&mut r, token.get_char(i));
        i = i + 1;
        assert(r@ =~= head + token@.take(i as int));
    }
    push_char(&mut r, '/');
    assert(token@.take(n as int) =~= token@);
    r
}

/// A fresh session prefix from a random UUID, so that only the editor that
/// was handed the URL can reach the project.
pub fn session_prefix() -> (r: String)
    ensures
        is_session_prefix(r@),
        exists|token: Seq<char>|
            token.len() == 32 && (forall|i: int| 0 <= i < 32 ==> is_lower_hex(#[trigger] token[i]))
                && r@ == seq!['/', 's', 'e', 's', 's', 'i', 'o', 'n', '/'] + token + seq!['/'],
{
    let token = random_uuid_simple();
    let r = session_prefix_from(token.as_str());
    proof {
        reveal_strlit("/session/");
        assert(r@.subrange(0, 9) =~= "/session/"@);
        assert forall|k: int| 9 <= k < 41 implies is_lower_hex(#[trigger] r@[k]) by {
            assert(r@[k] == token@[k - 9]);
        }
    }
    r
}

/// The URL of a session served on `port` of the loopback address.
pub open spec fn session_url_text(port: u16, prefix: Seq<char>) -> Seq<char> {
    "http://127.0.0.1:"@ + decimal(port as nat) + prefix
}

/// The URL of a session served on `port` of the loopback address.
pub fn session_url(port: u16, prefix: &str) -> (r: String)
    ensures
        r@ == session_url_text(port, prefix@),
{
    proof {
        reveal_strlit("http://127.0.0.1:");
    }
    let mut out = crate::text::chars_of("http://127.0.0.1:");
    push_padded(&mut out, port as u128, 0);
    proof {
        lemma_decimal(port as nat);
    }
    let ghost head = out@;
    let n = prefix.unicode_len();
    let mut i: usize = 0;
    while i < n
        invariant
            n == prefix@.len(),
            i <= n,
            out@ == head + prefix@.take(i as int),
        decreases n - i,
    {
        out.push(prefix.get_char(i));
        i = i + 1;
        assert(out@ =~= head + prefix@.take(i as int));
    }
    assert(prefix@.take(n as int) =~= prefix@);
    assert(out@ =~= session_url_text(port, prefix@));
    string_of(&out)
}

} // verus!
