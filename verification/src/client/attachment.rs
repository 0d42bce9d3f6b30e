//! Execution locality is independent of the transport's socket representation.

use vstd::prelude::*;

use crate::protocol::Capabilities;
use crate::text::{self, chars_of, has_control, is_longer_than_prefix, to_lowercase};

verus! {

#[derive(Clone, Copy, Debug, PartialEq, Eq, Structural)]
pub enum Locality {
    Local,
    Remote,
}

/// What the client is attached to: a local daemon by its socket's path, or a
/// remote one by what it granted.
#[derive(Clone, Copy, Debug)]
pub enum Attachment<'a> {
    Local(&'a [u8]),
    Remote(Capabilities),
}

/// The actions of the client that locality decides about; `Other` is any that
/// works everywhere.
#[derive(Clone, Copy, Debug, PartialEq, Eq, Structural)]
pub enum ClientAction {
    RunCommand(usize),
    OpenProject,
    ReloadConfig,
    ReloadProjectConfig,
    Other,
}

impl<'a> Attachment<'a> {
    pub open spec fn place(self) -> Locality {
        match self {
            Attachment::Local(_) => Locality::Local,
            Attachment::Remote(_) => Locality::Remote,
        }
    }

    pub fn locality(self) -> (r: Locality)
        ensures
            r == self.place(),
    {
        match self {
            Attachment::Local(_) => Locality::Local,
            Attachment::Remote(_) => Locality::Remote,
        }
    }

    /// The local daemon's socket, or why there is none.
    pub fn local_socket(self) -> (r: Result<&'a [u8], &'static str>)
        ensures
            match self {
                Attachment::Local(path) => r == Ok::<&'a [u8], &'static str>(path),
                Attachment::Remote(_) => r matches Err(error) && error@
                    == "local commands unavailable during remote attachment"@,
            },
    {
        match self {
            Attachment::Local(path) => Ok(path),
            Attachment::Remote(_) => Err("local commands unavailable during remote attachment"),
        }
    }

    /// The socket that client hooks run with. Remote attachments run none at
    /// all: even locally installed hooks assume a local socket and resource
    /// context.
    pub fn client_hooks(self) -> (r: Option<&'a [u8]>)
        ensures
            r == (match self {
                Attachment::Local(socket) => Some(socket),
                Attachment::Remote(_) => None,
            }),
    {
        match self {
            Attachment::Local(socket) => Some(socket),
            Attachment::Remote(_) => None,
        }
    }
}

/// A link to the web: the scheme in any case, and something after it.
pub open spec fn web_link(uri: Seq<char>) -> bool {
    text::goes_on_from(text::lowercase(uri), "http://"@) || text::goes_on_from(
        text::lowercase(uri),
        "https://"@,
    )
}

impl Locality {
    pub open spec fn allows_link(self, uri: Seq<char>) -> bool {
        self == Locality::Local || web_link(uri)
    }

    pub open spec fn draws_link(self, uri: Seq<char>) -> bool {
        self == Locality::Local || (web_link(uri) && !text::holds_control(uri))
    }

    /// Why commands cannot be run, if so.
    pub fn blocked_command(self) -> (r: Option<&'static str>)
        ensures
            match self {
                Locality::Local => r is None,
                Locality::Remote => r matches Some(why) && why@
                    == "commands unavailable during remote attachment"@,
            },
    {
        match self {
            Locality::Local => None,
            Locality::Remote => Some("commands unavailable during remote attachment"),
        }
    }

    /// Why an action cannot be taken, if so.
    pub fn blocked_action(self, action: ClientAction) -> (r: Option<&'static str>)
        ensures
            match (self, action) {
                (Locality::Local, _) => r is None,
                (Locality::Remote, ClientAction::RunCommand(_)) => r matches Some(why) && why@
                    == "commands unavailable during remote attachment"@,
                (Locality::Remote, ClientAction::OpenProject) => r matches Some(why) && why@
                    == "project opener unavailable during remote attachment"@,
                (Locality::Remote, ClientAction::ReloadConfig) => r matches Some(why) && why@
                    == "config reload unavailable during remote attachment"@,
                (Locality::Remote, ClientAction::ReloadProjectConfig) => r matches Some(why)
                    && why@ == "config reload unavailable during remote attachment"@,
                (Locality::Remote, ClientAction::Other) => r is None,
            },
    {
        if self == Locality::Local {
            return None;
        }
        match action {
            ClientAction::RunCommand(_) => self.blocked_command(),
            ClientAction::OpenProject => Some(
                "project opener unavailable during remote attachment",
            ),
            ClientAction::ReloadConfig | ClientAction::ReloadProjectConfig => Some(
                "config reload unavailable during remote attachment",
            ),
            ClientAction::Other => None,
        }
    }

    /// A remote screen may only link to the web.
    pub fn permits_link(self, uri: &str) -> (r: bool)
        ensures
            r == self.allows_link(uri@),
    {
        if self == Locality::Local {
            return true;
        }
        let folded = to_lowercase(chars_of(uri).as_slice());
        is_longer_than_prefix(folded.as_slice(), "http://") || is_longer_than_prefix(
            folded.as_slice(),
            "https://",
        )
    }

    /// A cell of the screen is drawn as a link. A remote link must be permitted
    /// and free of control characters, which would end the sequence that carries
    /// it to the terminal.
    pub fn shows_link(self, uri: &str) -> (r: bool)
        ensures
            r == self.draws_link(uri@),
    {
        self.permits_link(uri) && (self == Locality::Local || !has_control(
            chars_of(uri).as_slice(),
        ))
    }
}

/// Whatever a remote screen draws as a link leads to the web and is permitted,
/// and a local screen draws it too.
pub proof fn law_remote_links_lead_to_the_web(uri: Seq<char>)
    requires
        Locality::Remote.draws_link(uri),
    ensures
        web_link(uri),
        Locality::Remote.allows_link(uri),
        Locality::Local.draws_link(uri),
{
}

/// The first `://` of a text stands at `i`.
pub open spec fn scheme_ends(uri: Seq<char>, i: int) -> bool {
    text::occurs_at(uri, "://"@, i) && forall|j: int| 0 <= j < i ==> !#[trigger] text::occurs_at(
        uri,
        "://"@,
        j,
    )
}

/// A link leads to the web exactly when what stands before its first `://` is
/// `http` or `https` in any case, and something stands after it.
pub proof fn law_a_web_link_names_its_scheme(uri: Seq<char>)
    ensures
        web_link(uri) <==> exists|i: int| #[trigger]
            scheme_ends(uri, i) && (text::lowercase(uri.take(i)) == "http"@ || text::lowercase(
                uri.take(i),
            ) == "https"@) && uri.len() > i + "://"@.len(),
{
    reveal_strlit("http://");
    reveal_strlit("https://");
    reveal_strlit("://");
    reveal_strlit("http");
    reveal_strlit("https");
    let folded = text::lowercase(uri);
    if text::goes_on_from(folded, "http://"@) {
        assert("http"@ + "://"@ =~= "http://"@);
        lemma_scheme(uri, "http"@, "http://"@);
    }
    if text::goes_on_from(folded, "https://"@) {
        assert("https"@ + "://"@ =~= "https://"@);
        lemma_scheme(uri, "https"@, "https://"@);
    }
    if exists|i: int| #[trigger]
        scheme_ends(uri, i) && (text::lowercase(uri.take(i)) == "http"@ || text::lowercase(
            uri.take(i),
        ) == "https"@) && uri.len() > i + "://"@.len() {
        let i = choose|i: int| #[trigger]
            scheme_ends(uri, i) && (text::lowercase(uri.take(i)) == "http"@ || text::lowercase(
                uri.take(i),
            ) == "https"@) && uri.len() > i + "://"@.len();
        let scheme = text::lowercase(uri.take(i));
        assert(scheme.len() == i);
        assert(folded.take(i) =~= scheme);
        assert(uri.subrange(i, i + 3) =~= "://"@);
        assert(folded.subrange(i, i + 3) =~= "://"@) by {
            assert(uri.subrange(i, i + 3)[0] == uri[i]);
            assert(uri.subrange(i, i + 3)[1] == uri[i + 1]);
            assert(uri.subrange(i, i + 3)[2] == uri[i + 2]);
        }
        assert(folded.subrange(0, i + 3) =~= folded.take(i) + folded.subrange(i, i + 3));
        if scheme == "http"@ {
            assert("http"@ + "://"@ =~= "http://"@);
        } else {
            assert("https"@ + "://"@ =~= "https://"@);
        }
    }
}

/// A text that goes on from a scheme of letters and `://` has its first `://`
/// right after the scheme.
proof fn lemma_scheme(uri: Seq<char>, scheme: Seq<char>, prefix: Seq<char>)
    requires
        text::goes_on_from(text::lowercase(uri), prefix),
        prefix == scheme + "://"@,
        forall|k: int| 0 <= k < scheme.len() ==> 'a' <= #[trigger] scheme[k] <= 'z',
    ensures
        scheme_ends(uri, scheme.len() as int),
        text::lowercase(uri.take(scheme.len() as int)) == scheme,
        uri.len() > scheme.len() + "://"@.len(),
{
    reveal_strlit("://");
    let folded = text::lowercase(uri);
    let n = scheme.len() as int;
    assert forall|k: int| 0 <= k < prefix.len() implies text::lower(#[trigger] uri[k])
        == prefix[k] by {
        assert(folded.subrange(0, prefix.len() as int)[k] == folded[k]);
    }
    assert forall|k: int| 0 <= k < n implies text::lower(#[trigger] uri[k]) == scheme[k] by {
        assert(prefix[k] == scheme[k]);
    }
    assert(text::lowercase(uri.take(n)) =~= scheme);
    assert(prefix[n] == ':' && prefix[n + 1] == '/' && prefix[n + 2] == '/');
    assert(uri[n] == ':' && uri[n + 1] == '/' && uri[n + 2] == '/');
    assert(uri.subrange(n, n + 3) =~= "://"@);
    assert forall|j: int| 0 <= j < n implies !#[trigger] text::occurs_at(uri, "://"@, j) by {
        if text::occurs_at(uri, "://"@, j) {
            assert(uri.subrange(j, j + 3)[0] == uri[j]);
            assert(text::lower(uri[j]) == scheme[j]);
        }
    }
}

/// A local screen draws every link. A remote one draws a link exactly when it leads
/// to the web and holds no control character.
pub proof fn law_a_remote_link_is_drawn_only_if_clean(uri: Seq<char>)
    ensures
        Locality::Local.allows_link(uri),
        Locality::Local.draws_link(uri),
        Locality::Remote.allows_link(uri) <==> web_link(uri),
        Locality::Remote.draws_link(uri) <==> web_link(uri) && forall|i: int|
            0 <= i < uri.len() ==> !text::control(#[trigger] uri[i]),
{
}

/// A place is local exactly when the attachment is.
pub proof fn law_an_attachment_has_its_place(path: &[u8], capabilities: Capabilities)
    ensures
        Attachment::Local(path).place() == Locality::Local,
        Attachment::Remote(capabilities).place() == Locality::Remote,
{
}

} // verus!
