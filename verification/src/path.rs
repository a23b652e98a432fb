//! Building URI patterns from typed components.
//!
//! A path is declared as a chain of components — static text, a named
//! parameter, a catch-all, or a trailing slash — that assemble into
//! pattern text, which is then parsed and validated like any declared
//! pattern.

use vstd::prelude::*;
use crate::error::Error;
use crate::input::Params;
use crate::uri::{spec_parse, root_uri_v, Uri, UriError};

verus! {

/// One declared component of a path.
pub enum UriComponent {
    /// One static segment.
    Static(String),
    /// One named parameter segment (`:name`).
    Param(String),
    /// The trailing catch-all segment (`*name`).
    CatchAll(String),
    /// A trailing slash.
    Slash,
}

/// The text a component contributes to the pattern.
pub open spec fn comp_text(c: UriComponent) -> Seq<char> {
    match c {
        UriComponent::Static(s) => seq!['/'] + s@,
        UriComponent::Param(n) => seq!['/', ':'] + n@,
        UriComponent::CatchAll(n) => seq!['/', '*'] + n@,
        UriComponent::Slash => seq!['/'],
    }
}

/// The concatenated text of a component chain.
pub open spec fn comps_text(cs: Seq<UriComponent>) -> Seq<char>
    decreases cs.len(),
{
    if cs.len() == 0 {
        Seq::empty()
    } else {
        comps_text(cs.drop_last()) + comp_text(cs.last())
    }
}

/// The pattern text a component chain declares; no components declare
/// the root pattern.
pub open spec fn path_text(cs: Seq<UriComponent>) -> Seq<char> {
    if cs.len() == 0 {
        seq!['/']
    } else {
        comps_text(cs)
    }
}

/// Marks a path that may not be extended by further components: it ends
/// in a catch-all or a trailing slash.
pub struct Completed;

/// Marks a path that further components may extend.
pub struct Incomplete;

/// The trailing-slash component.
pub struct Slash;

/// Declares a trailing slash at the end of the path.
pub fn slash() -> Slash {
    Slash
}

/// The named-parameter component.
pub struct Param {
    name: String,
}

/// Declares a parameter segment with the given name.
pub fn param(name: &str) -> (r: Param)
    ensures
        r.spec_name() == name@,
{
    Param { name: name.to_owned() }
}

impl Param {
    /// The declared parameter name.
    pub closed spec fn spec_name(&self) -> Seq<char> {
        self.name@
    }

    /// The component this declaration contributes.
    pub fn component(&self) -> (r: UriComponent)
        ensures
            comp_text(r) == seq!['/', ':'] + self.spec_name(),
    {
        UriComponent::Param(self.name.clone())
    }

    /// The value captured for this parameter, or a server error when the
    /// matched pattern declares no such name.
    pub fn extract_inner(&self, params: &Params) -> (r: Result<String, Error>)
        requires
            params.wf(),
        ensures
            match r {
                Ok(v) => exists|i: int|
                    0 <= i < params.spec_names().len() && (#[trigger] params.spec_names()[i])
                        == self.spec_name() && v@ == params.spec_values()[i],
                Err(e) => e.spec_is_http() && e.spec_status() == 500 && !params.spec_names()
                    .contains(self.spec_name()),
            },
    {
        match params.name(self.name.as_str()) {
            Some(v) => Ok(v.clone()),
            None => Err(
                Error::internal_server_error(String::from_str("invalid parameter name")),
            ),
        }
    }
}

/// The catch-all component.
pub struct CatchAll {
    name: String,
}

/// Declares the catch-all segment with the given name.
pub fn catch_all(name: &str) -> (r: CatchAll)
    ensures
        r.spec_name() == name@,
{
    CatchAll { name: name.to_owned() }
}

impl CatchAll {
    /// The declared parameter name.
    pub closed spec fn spec_name(&self) -> Seq<char> {
        self.name@
    }

    /// The component this declaration contributes.
    pub fn component(&self) -> (r: UriComponent)
        ensures
            comp_text(r) == seq!['/', '*'] + self.spec_name(),
    {
        UriComponent::CatchAll(self.name.clone())
    }

    /// The remainder captured by the catch-all, or a server error when
    /// the matched pattern declares none.
    pub fn extract_inner(&self, params: &Params) -> (r: Result<String, Error>)
        requires
            params.wf(),
        ensures
            match r {
                Ok(v) => params.spec_has_wildcard() && params.spec_values().len() > 0 && v@
                    == params.spec_values().last(),
                Err(e) => e.spec_is_http() && e.spec_status() == 500 && (!params
                    .spec_has_wildcard() || params.spec_values().len() == 0),
            },
    {
        match params.catch_all() {
            Some(v) => Ok(v.clone()),
            None => Err(
                Error::internal_server_error(String::from_str("invalid parameter name")),
            ),
        }
    }
}

impl Slash {
    /// The component this declaration contributes.
    pub fn component(&self) -> (r: UriComponent)
        ensures
            comp_text(r) == seq!['/'],
    {
        UriComponent::Slash
    }
}

/// The value of a hexadecimal digit, or 16 for any other character.
pub open spec fn hex_value(c: char) -> int {
    let u = c as int;
    if 0x30 <= u <= 0x39 {
        u - 0x30
    } else if 0x61 <= u <= 0x66 {
        u - 0x61 + 10
    } else if 0x41 <= u <= 0x46 {
        u - 0x41 + 10
    } else {
        16
    }
}

/// What percent-decoding text yields: each `%XX` escape with two
/// hexadecimal digits becomes the byte `XX`, every other ASCII
/// character its own byte; a `%` without two hexadecimal digits, and
/// any character outside ASCII, is rejected.
pub open spec fn spec_percent_decode(s: Seq<char>) -> Option<Seq<u8>>
    decreases s.len(),
{
    if s.len() == 0 {
        Some(Seq::empty())
    } else if s[0] == '%' {
        if s.len() >= 3 && hex_value(s[1]) < 16 && hex_value(s[2]) < 16 {
            match spec_percent_decode(s.skip(3)) {
                Some(rest) => Some(seq![(hex_value(s[1]) * 16 + hex_value(s[2])) as u8] + rest),
                None => None,
            }
        } else {
            None
        }
    } else if s[0] as int > 0x7f {
        None
    } else {
        match spec_percent_decode(s.skip(1)) {
            Some(rest) => Some(seq![(s[0] as int) as u8] + rest),
            None => None,
        }
    }
}

fn hex_val(c: char) -> (r: u8)
    ensures
        r as int == hex_value(c),
{
    let u = c as u32;
    if u >= 0x30 && u <= 0x39 {
        (u - 0x30) as u8
    } else if u >= 0x61 && u <= 0x66 {
        (u - 0x61 + 10) as u8
    } else if u >= 0x41 && u <= 0x46 {
        (u - 0x41 + 10) as u8
    } else {
        16
    }
}

/// Percent-decodes text, as captured parameter values arrive still
/// encoded.  The decoded bytes are returned as they are; rejected text
/// gets a 400 error.
#[verifier::loop_isolation(false)]
pub fn percent_decode(s: &str) -> (r: Result<Vec<u8>, Error>)
    ensures
        match r {
            Ok(v) => spec_percent_decode(s@) == Some(v@),
            Err(e) => spec_percent_decode(s@) is None && e.spec_is_http() && e.spec_status()
                == 400,
        },
{
    let n = s.unicode_len();
    let mut out: Vec<u8> = Vec::new();
    let mut i: usize = 0;
    proof {
        assert(s@.skip(0) =~= s@);
    }
    while i < n
        invariant
            n == s@.len(),
            i <= n,
            spec_percent_decode(s@.skip(i as int)) matches Some(rest) ==> spec_percent_decode(s@)
                == Some(out@ + rest),
            spec_percent_decode(s@.skip(i as int)) is None ==> spec_percent_decode(s@) is None,
        decreases n - i,
    {
        let ghost tail = s@.skip(i as int);
        proof {
            assert(tail[0] == s@[i as int]);
        }
        let c = s.get_char(i);
        if c == '%' {
            if n - i < 3 {
                proof {
                    assert(tail.len() < 3);
                    assert(spec_percent_decode(tail) is None);
                }
                return Err(
                    Error::bad_request(String::from_str("invalid percent-encoding")),
                );
            }
            proof {
                assert(tail[1] == s@[i + 1]);
                assert(tail[2] == s@[i + 2]);
            }
            let h1 = hex_val(s.get_char(i + 1));
            let h2 = hex_val(s.get_char(i + 2));
            if h1 >= 16 || h2 >= 16 {
                proof {
                    assert(spec_percent_decode(tail) is None);
                }
                return Err(
                    Error::bad_request(String::from_str("invalid percent-encoding")),
                );
            }
            out.push(h1 * 16 + h2);
            proof {
                assert(tail.skip(3) =~= s@.skip(i + 3));
                let dec = spec_percent_decode(s@.skip(i + 3));
                if dec is Some {
                    let rest = dec.unwrap();
                    assert(spec_percent_decode(tail) == Some(
                        seq![(hex_value(tail[1]) * 16 + hex_value(tail[2])) as u8] + rest,
                    ));
                    assert(out@ + rest =~= out@.take(out@.len() - 1) + (seq![
                        (hex_value(tail[1]) * 16 + hex_value(tail[2])) as u8,
                    ] + rest));
                }
            }
            i = i + 3;
        } else {
            let u = c as u32;
            if u > 0x7f {
                proof {
                    assert(spec_percent_decode(tail) is None);
                }
                return Err(
                    Error::bad_request(String::from_str("invalid percent-encoding")),
                );
            }
            out.push(u as u8);
            proof {
                assert(tail.skip(1) =~= s@.skip(i + 1));
                let dec = spec_percent_decode(s@.skip(i + 1));
                if dec is Some {
                    let rest = dec.unwrap();
                    assert(spec_percent_decode(tail) == Some(seq![(tail[0] as int) as u8] + rest));
                    assert(out@ + rest =~= out@.take(out@.len() - 1) + (seq![
                        (tail[0] as int) as u8,
                    ] + rest));
                }
            }
            i = i + 1;
        }
    }
    proof {
        assert(s@.skip(n as int) =~= Seq::<char>::empty());
        assert(spec_percent_decode(s@.skip(n as int)) == Some(Seq::<u8>::empty()));
        assert(out@ + Seq::<u8>::empty() =~= out@);
    }
    Ok(out)
}

/// A declared path: a pattern, or the asterisk form that matches only
/// the server-wide `OPTIONS` request and carries no pattern.
pub struct Path {
    uri: Option<Uri>,
}

impl Path {
    /// The declared pattern, if any.
    pub closed spec fn spec_uri(&self) -> Option<Uri> {
        self.uri
    }

    /// The root path `/`.
    pub fn root() -> (r: Self)
        ensures
            r.spec_uri() is Some,
            r.spec_uri().unwrap()@ == root_uri_v(),
    {
        Path { uri: Some(Uri::root()) }
    }

    /// The asterisk form, which declares no pattern.
    pub fn asterisk() -> (r: Self)
        ensures
            r.spec_uri() is None,
    {
        Path { uri: None }
    }

    /// The declared pattern.
    pub fn uri(&self) -> (r: Option<&Uri>)
        ensures
            match r {
                Some(u) => self.spec_uri() == Some(*u),
                None => self.spec_uri() is None,
            },
    {
        match &self.uri {
            Some(u) => Some(u),
            None => None,
        }
    }

    /// Assembles a component chain into pattern text and parses it; the
    /// chain is rejected exactly when its text is.
    #[verifier::loop_isolation(false)]
    pub fn create(components: &Vec<UriComponent>) -> (r: Result<Path, UriError>)
        ensures
            match r {
                Ok(p) => {
                    &&& p.spec_uri() is Some
                    &&& spec_parse(path_text(components@)) == Some(p.spec_uri().unwrap()@)
                    &&& p.spec_uri().unwrap().wf()
                },
                Err(_) => spec_parse(path_text(components@)) is None,
            },
    {
        if components.len() == 0 {
            proof {
                reveal_strlit("/");
                assert(seq!['/'].len() == 1);
                assert(vstd::utf8::is_ascii_chars(seq!['/']));
            }
            let u = Uri::root();
            return Ok(Path { uri: Some(u) });
        }
        let mut text = String::new();
        let n = components.len();
        let mut k: usize = 0;
        proof {
            assert(comps_text(components@.take(0)) =~= Seq::<char>::empty());
        }
        while k < n
            invariant
                k <= n,
                text@ == comps_text(components@.take(k as int)),
            decreases n - k,
        {
            proof {
                reveal_strlit("/");
                reveal_strlit("/:");
                reveal_strlit("/*");
            }
            match &components[k] {
                UriComponent::Static(s) => {
                    text.append("/");
                    text.append(s.as_str());
                },
                UriComponent::Param(name) => {
                    text.append("/:");
                    text.append(name.as_str());
                },
                UriComponent::CatchAll(name) => {
                    text.append("/*");
                    text.append(name.as_str());
                },
                UriComponent::Slash => {
                    text.append("/");
                },
            }
            proof {
                assert(components@.take(k + 1).drop_last() =~= components@.take(k as int));
                assert(components@.take(k + 1).last() == components@[k as int]);
                assert(text@ =~= comps_text(components@.take(k + 1)));
            }
            k = k + 1;
        }
        proof {
            assert(components@.take(n as int) =~= components@);
        }
        match Uri::parse(text.as_str()) {
            Ok(u) => Ok(Path { uri: Some(u) }),
            Err(e) => Err(e),
        }
    }
}

} // verus!
