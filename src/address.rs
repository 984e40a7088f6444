//! The compact `user:password@host:port` form in which a connection is requested.
use vstd::prelude::*;

use crate::text::{
    chars_of, decimal_of, lemma_decimal_round_trip, parse_u16, parse_u16_spec, split_chars,
    split_on, string_of, views,
};

verus! {

/// Credentials and endpoint of one SSH server.
#[derive(Clone, Debug)]
pub struct SshAddress {
    pub username: String,
    pub password: String,
    pub host: String,
    pub port: u16,
}

/// Why an address string was rejected.
#[derive(Clone, Copy, Debug, PartialEq, Eq)]
pub enum UrlError {
    /// Not two `@`-separated parts, each of two `:`-separated parts.
    Malformed,
    /// The port is not an unsigned 16-bit decimal number.
    InvalidPort,
}

pub open spec fn at_parts(u: Seq<char>) -> Seq<Seq<char>> {
    split_on(u, '@')
}

pub open spec fn credential_parts(u: Seq<char>) -> Seq<Seq<char>> {
    split_on(at_parts(u)[0], ':')
}

pub open spec fn endpoint_parts(u: Seq<char>) -> Seq<Seq<char>> {
    split_on(at_parts(u)[1], ':')
}

/// Exactly two `@`-parts, each made of exactly two `:`-parts.
pub open spec fn well_shaped(u: Seq<char>) -> bool {
    at_parts(u).len() == 2 && credential_parts(u).len() == 2 && endpoint_parts(u).len() == 2
}

pub open spec fn url_user(u: Seq<char>) -> Seq<char> {
    credential_parts(u)[0]
}

pub open spec fn url_password(u: Seq<char>) -> Seq<char> {
    credential_parts(u)[1]
}

pub open spec fn url_host(u: Seq<char>) -> Seq<char> {
    endpoint_parts(u)[0]
}

pub open spec fn url_port_text(u: Seq<char>) -> Seq<char> {
    endpoint_parts(u)[1]
}

/// Splits `user:password@host:port` into its four fields.
pub fn parse_url(url: &str) -> (r: Result<SshAddress, UrlError>)
    ensures
        r == Err::<SshAddress, UrlError>(UrlError::Malformed) <==> !well_shaped(url@),
        r == Err::<SshAddress, UrlError>(UrlError::InvalidPort) <==> (well_shaped(url@)
            && parse_u16_spec(url_port_text(url@)) is None),
        r is Ok <==> (well_shaped(url@) && parse_u16_spec(url_port_text(url@)) is Some),
        r matches Ok(a) ==> {
            &&& a.username@ == url_user(url@)
            &&& a.password@ == url_password(url@)
            &&& a.host@ == url_host(url@)
            &&& Some(a.port) == parse_u16_spec(url_port_text(url@))
        },
{
    let cs = chars_of(url);
    let parts = split_chars(cs.as_slice(), '@');
    if parts.len() != 2 {
        return Err(UrlError::Malformed);
    }
    assert(parts[0]@ == at_parts(url@)[0]);
    assert(parts[1]@ == at_parts(url@)[1]);
    let credentials = split_chars(parts[0].as_slice(), ':');
    let endpoint = split_chars(parts[1].as_slice(), ':');
    if credentials.len() != 2 || endpoint.len() != 2 {
        return Err(UrlError::Malformed);
    }
    assert(credentials[0]@ == url_user(url@));
    assert(credentials[1]@ == url_password(url@));
    assert(endpoint[0]@ == url_host(url@));
    assert(endpoint[1]@ == url_port_text(url@));
    match parse_u16(endpoint[1].as_slice()) {
        None => Err(UrlError::InvalidPort),
        Some(port) => Ok(
            SshAddress {
                username: string_of(credentials[0].as_slice()),
                password: string_of(credentials[1].as_slice()),
                host: string_of(endpoint[0].as_slice()),
                port,
            },
        ),
    }
}

/// The address string that names the given fields.
pub open spec fn compose_url(user: Seq<char>, password: Seq<char>, host: Seq<char>, port: u16) -> Seq<
    char,
> {
    user + seq![':'] + password + seq!['@'] + host + seq![':'] + decimal_of(port as nat)
}

pub open spec fn free_of(s: Seq<char>, c: char) -> bool {
    forall|i: int| 0 <= i < s.len() ==> s[i] != c
}

proof fn lemma_split_append_plain(x: Seq<char>, y: Seq<char>, sep: char)
    requires
        free_of(y, sep),
    ensures
        split_on(x + y, sep) == split_on(x, sep).update(
            split_on(x, sep).len() - 1,
            split_on(x, sep).last() + y,
        ),
    decreases y.len(),
{
    crate::text::lemma_split_on_nonempty(x, sep);
    if y.len() == 0 {
        assert(x + y =~= x);
        assert(split_on(x, sep).last() + y =~= split_on(x, sep).last());
        assert(split_on(x, sep).update(split_on(x, sep).len() - 1, split_on(x, sep).last())
            =~= split_on(x, sep));
    } else {
        let y0 = y.drop_last();
        lemma_split_append_plain(x, y0, sep);
        assert((x + y).drop_last() =~= x + y0);
        assert((x + y).last() == y.last());
        assert(y[y.len() - 1] != sep);
        let p = split_on(x, sep);
        let prev = split_on(x + y0, sep);
        assert(prev.len() == p.len());
        assert(prev.last() == p.last() + y0);
        assert(split_on(x + y, sep) == prev.update(prev.len() - 1, prev.last().push(y.last())));
        assert((p.last() + y0).push(y.last()) =~= p.last() + y);
        assert(split_on(x + y, sep) =~= split_on(x, sep).update(
            split_on(x, sep).len() - 1,
            split_on(x, sep).last() + y,
        ));
    }
}

proof fn lemma_split_two(a: Seq<char>, b: Seq<char>, sep: char)
    requires
        free_of(a, sep),
        free_of(b, sep),
    ensures
        split_on(a + seq![sep] + b, sep) == seq![a, b],
{
    lemma_split_append_plain(Seq::empty(), a, sep);
    assert(Seq::<char>::empty() + a =~= a);
    assert(split_on(Seq::<char>::empty(), sep) == seq![Seq::<char>::empty()]);
    assert(split_on(a, sep) =~= seq![a]);
    let x = a + seq![sep];
    assert(x.drop_last() =~= a);
    assert(split_on(x, sep) =~= seq![a, Seq::<char>::empty()]);
    lemma_split_append_plain(x, b, sep);
    assert(Seq::<char>::empty() + b =~= b);
    assert(split_on(x + b, sep) =~= seq![a, b]);
}

/// An address string made of a user name, a password and a host that hold
/// neither `@` nor `:`, and of a port written in decimal, is well shaped and
/// parses back into exactly those four fields.
pub proof fn lemma_url_round_trip(user: Seq<char>, password: Seq<char>, host: Seq<char>, port: u16)
    requires
        free_of(user, '@'),
        free_of(user, ':'),
        free_of(password, '@'),
        free_of(password, ':'),
        free_of(host, '@'),
        free_of(host, ':'),
    ensures
        well_shaped(compose_url(user, password, host, port)),
        url_user(compose_url(user, password, host, port)) == user,
        url_password(compose_url(user, password, host, port)) == password,
        url_host(compose_url(user, password, host, port)) == host,
        parse_u16_spec(url_port_text(compose_url(user, password, host, port))) == Some(port),
{
    let d = decimal_of(port as nat);
    lemma_decimal_round_trip(port as nat);
    assert(free_of(d, '@') && free_of(d, ':')) by {
        assert forall|i: int| 0 <= i < d.len() implies d[i] != '@' && d[i] != ':' by {
            assert(crate::text::is_digit(d[i]));
        }
    }
    let cred = user + seq![':'] + password;
    let endp = host + seq![':'] + d;
    assert(free_of(cred, '@')) by {
        assert forall|i: int| 0 <= i < cred.len() implies cred[i] != '@' by {
            if i < user.len() {
                assert(cred[i] == user[i]);
            } else if i > user.len() {
                assert(cred[i] == password[i - user.len() - 1]);
            }
        }
    }
    assert(free_of(endp, '@')) by {
        assert forall|i: int| 0 <= i < endp.len() implies endp[i] != '@' by {
            if i < host.len() {
                assert(endp[i] == host[i]);
            } else if i > host.len() {
                assert(endp[i] == d[i - host.len() - 1]);
            }
        }
    }
    assert(compose_url(user, password, host, port) =~= cred + seq!['@'] + endp);
    lemma_split_two(cred, endp, '@');
    lemma_split_two(user, password, ':');
    lemma_split_two(host, d, ':');
}

} // verus!
