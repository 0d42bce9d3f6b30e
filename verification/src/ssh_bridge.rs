//! Which texts may be handed to OpenSSH as a destination.

use vstd::prelude::*;

use crate::text::{self, chars_of, contains, is_control, is_whitespace};

verus! {

/// Why a text is no destination.
#[derive(Clone, Copy, Debug, PartialEq, Eq, Structural)]
pub enum DestinationFault {
    Empty,
    LeadingDash,
    Characters,
    Uri,
    Password,
}

/// A colon stands before the last `@`: the user part holds a password.
pub open spec fn holds_password(target: Seq<char>) -> bool {
    exists|colon: int, at: int|
        0 <= colon < at < target.len() && #[trigger] target[colon] == ':' && #[trigger] target[at]
            == '@'
}

/// The first rule that a destination breaks, if any.
pub open spec fn destination_fault(target: Seq<char>) -> Option<DestinationFault> {
    if target.len() == 0 {
        Some(DestinationFault::Empty)
    } else if text::begins_with(target, '-') {
        Some(DestinationFault::LeadingDash)
    } else if exists|i: int|
        0 <= i < target.len() && (text::white_space(#[trigger] target[i]) || text::control(target[i])) {
        Some(DestinationFault::Characters)
    } else if text::mentions(target, "://"@) {
        Some(DestinationFault::Uri)
    } else if holds_password(target) {
        Some(DestinationFault::Password)
    } else {
        None
    }
}

/// Accepts a host, optionally with a user: no option, no URI, no password, and
/// neither white space nor control characters.
pub fn validate_destination(target: &str) -> (r: Result<(), DestinationFault>)
    ensures
        match r {
            Ok(()) => destination_fault(target@) is None,
            Err(fault) => destination_fault(target@) == Some(fault),
        },
{
    let chars = chars_of(target);
    if chars.len() == 0 {
        return Err(DestinationFault::Empty);
    }
    if chars[0] == '-' {
        return Err(DestinationFault::LeadingDash);
    }
    let mut i: usize = 0;
    while i < chars.len()
        invariant
            chars@ == target@,
            chars@.len() > 0,
            !text::begins_with(target@, '-'),
            i <= chars.len(),
            forall|k: int| 0 <= k < i ==> !text::white_space(#[trigger] target@[k]) && !text::control(target@[k]),
        decreases chars.len() - i,
    {
        if is_whitespace(chars[i]) || is_control(chars[i]) {
            proof {
                assert(text::white_space(target@[i as int]) || text::control(target@[i as int]));
            }
            return Err(DestinationFault::Characters);
        }
        i += 1;
    }
    if contains(chars.as_slice(), "://") {
        return Err(DestinationFault::Uri);
    }
    let mut seen_colon = false;
    let mut j: usize = 0;
    while j < chars.len()
        invariant
            chars@ == target@,
            chars@.len() > 0,
            !text::begins_with(target@, '-'),
            forall|k: int|
                0 <= k < target@.len() ==> !text::white_space(#[trigger] target@[k]) && !text::control(
                    target@[k],
                ),
            !text::mentions(target@, "://"@),
            j <= chars.len(),
            seen_colon == (exists|k: int| 0 <= k < j && #[trigger] target@[k] == ':'),
            forall|colon: int, at: int|
                0 <= colon < at < j ==> !(#[trigger] target@[colon] == ':' && #[trigger] target@[at]
                    == '@'),
        decreases chars.len() - j,
    {
        if chars[j] == '@' && seen_colon {
            proof {
                let k = choose|k: int| 0 <= k < j && #[trigger] target@[k] == ':';
                assert(target@[k] == ':' && target@[j as int] == '@');
            }
            return Err(DestinationFault::Password);
        }
        if chars[j] == ':' {
            proof {
                assert(target@[j as int] == ':');
            }
            seen_colon = true;
        }
        j += 1;
    }
    Ok(())
}

impl DestinationFault {
    pub open spec fn wording(self) -> Seq<char> {
        match self {
            DestinationFault::Empty => "SSH destination must not be empty"@,
            DestinationFault::LeadingDash => "SSH destination must not start with a dash"@,
            DestinationFault::Characters =>
                "SSH destination must not contain whitespace or control characters"@,
            DestinationFault::Uri => "SSH destination must not be a URI"@,
            DestinationFault::Password => "SSH destination must not contain a password"@,
        }
    }

    pub fn text(&self) -> (r: &'static str)
        ensures
            r@ == self.wording(),
    {
        match self {
            DestinationFault::Empty => "SSH destination must not be empty",
            DestinationFault::LeadingDash => "SSH destination must not start with a dash",
            DestinationFault::Characters =>
                "SSH destination must not contain whitespace or control characters",
            DestinationFault::Uri => "SSH destination must not be a URI",
            DestinationFault::Password => "SSH destination must not contain a password",
        }
    }
}

// ---------------------------------------------------------------------------
// Laws

/// A destination is a text of at least one character that does not begin with a
/// dash, holds neither white space nor controls, is no URI, and has no colon
/// anywhere before an `@`. Of several rules that a text breaks the first in this
/// order is named.
pub proof fn law_a_destination_is_a_plain_host(target: Seq<char>)
    ensures
        ({
            let fault = destination_fault(target);
            let dashed = target.len() > 0 && target[0] == '-';
            let clean = forall|i: int|
                0 <= i < target.len() ==> !text::white_space(#[trigger] target[i])
                    && !text::control(target[i]);
            let uri = exists|before: Seq<char>, behind: Seq<char>|
                target == #[trigger] (before + "://"@ + behind);
            let password = exists|user: Seq<char>, secret: Seq<char>, host: Seq<char>|
                target == #[trigger] (user + seq![':'] + secret + seq!['@'] + host);
            &&& fault is None <==> target.len() > 0 && !dashed && clean && !uri && !password
            &&& fault == Some(DestinationFault::Empty) <==> target.len() == 0
            &&& fault == Some(DestinationFault::LeadingDash) <==> dashed
            &&& fault == Some(DestinationFault::Characters) <==> !dashed && !clean
            &&& fault == Some(DestinationFault::Uri) <==> !dashed && clean && uri
            &&& fault == Some(DestinationFault::Password) <==> !dashed && clean && !uri && password
        }),
{
    crate::text_laws::law_a_mention_is_a_part(target, "://"@);
    if holds_password(target) {
        let (colon, at): (int, int) = choose|colon: int, at: int|
            0 <= colon < at < target.len() && #[trigger] target[colon] == ':'
                && #[trigger] target[at] == '@';
        let user = target.take(colon);
        let secret = target.subrange(colon + 1, at);
        let host = target.skip(at + 1);
        assert(target =~= user + seq![':'] + secret + seq!['@'] + host);
    }
    if exists|user: Seq<char>, secret: Seq<char>, host: Seq<char>|
        target == #[trigger] (user + seq![':'] + secret + seq!['@'] + host) {
        let (user, secret, host): (Seq<char>, Seq<char>, Seq<char>) = choose|
            user: Seq<char>,
            secret: Seq<char>,
            host: Seq<char>,
        | target == #[trigger] (user + seq![':'] + secret + seq!['@'] + host);
        let colon = user.len() as int;
        let at = colon + 1 + secret.len();
        assert(target[colon] == ':');
        assert(target[at] == '@');
    }
    let clean = forall|i: int|
        0 <= i < target.len() ==> !text::white_space(#[trigger] target[i]) && !text::control(
            target[i],
        );
    if target.len() == 0 {
        reveal_strlit("://");
    }
}

} // verus!
