use vstd::prelude::*;

use crate::text::push_str;

verus! {

/// Cookie `SameSite` attribute.
#[derive(Clone, Copy, Debug, PartialEq, Eq, Structural)]
pub enum SameSite {
    Strict,
    Lax,
    /// The policy written `None`: sent with cross-site requests too.
    Unrestricted,
}

/// Cookie priority, as reported by Chrome.
#[derive(Clone, Copy, Debug, PartialEq, Eq, Structural)]
pub enum Priority {
    Low,
    Medium,
    High,
}

/// Scheme the cookie was set from, as reported by Chrome.
#[derive(Clone, Copy, Debug, PartialEq, Eq, Structural)]
pub enum SourceScheme {
    Unset,
    NonSecure,
    Secure,
}

/// Partition key of a partitioned cookie.
pub struct PartitionKey {
    pub source_origin: String,
    pub has_cross_site_ancestor: Option<bool>,
}

/// One cookie of a session, as the login automation reports it. Its expiry
/// time is not kept: nothing here reads it.
pub struct Cookie {
    pub name: String,
    pub value: String,
    pub domain: String,
    pub path: String,
    pub size: usize,
    pub http_only: Option<bool>,
    pub secure: bool,
    pub session: bool,
    pub same_site: Option<SameSite>,
    pub priority: Option<Priority>,
    pub same_party: Option<bool>,
    pub source_scheme: Option<SourceScheme>,
    pub partition_key: Option<PartitionKey>,
    pub partition_key_opaque: Option<bool>,
}

pub open spec fn same_site_name(s: SameSite) -> Seq<char> {
    match s {
        SameSite::Strict => "Strict"@,
        SameSite::Lax => "Lax"@,
        SameSite::Unrestricted => "None"@,
    }
}

/// The cookie in `Set-Cookie` form: `name=value`, then the path and domain
/// when not empty, the `Secure` and `HttpOnly` flags when set, and the
/// `SameSite` policy when known.
pub open spec fn cookie_text(c: &Cookie) -> Seq<char> {
    c.name@ + "="@ + c.value@
        + (if c.path@.len() > 0 { "; Path="@ + c.path@ } else { Seq::empty() })
        + (if c.domain@.len() > 0 { "; Domain="@ + c.domain@ } else { Seq::empty() })
        + (if c.secure { "; Secure"@ } else { Seq::empty() })
        + (if c.http_only == Some(true) { "; HttpOnly"@ } else { Seq::empty() })
        + (match c.same_site {
            Some(s) => "; SameSite="@ + same_site_name(s),
            None => Seq::empty(),
        })
}

impl Cookie {
    pub fn to_cookie_str(&self) -> (r: String)
        ensures
            r@ == cookie_text(self),
    {
        let mut s = String::from_str(self.name.as_str());
        push_str(&mut s, "=");
        push_str(&mut s, self.value.as_str());
        if !self.path.as_str().is_empty() {
            push_str(&mut s, "; Path=");
            push_str(&mut s, self.path.as_str());
        }
        if !self.domain.as_str().is_empty() {
            push_str(&mut s, "; Domain=");
            push_str(&mut s, self.domain.as_str());
        }
        if self.secure {
            push_str(&mut s, "; Secure");
        }
        let http_only = match self.http_only {
            Some(v) => v,
            None => false,
        };
        if http_only {
            push_str(&mut s, "; HttpOnly");
        }
        match self.same_site {
            Some(site) => {
                push_str(&mut s, "; SameSite=");
                let name = match site {
                    SameSite::Strict => "Strict",
                    SameSite::Lax => "Lax",
                    SameSite::Unrestricted => "None",
                };
                push_str(&mut s, name);
            },
            None => {},
        }
        assert(s@ =~= cookie_text(self));
        s
    }
}

} // verus!
