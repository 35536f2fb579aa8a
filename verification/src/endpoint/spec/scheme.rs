//! The endpoint schemes.

use vstd::prelude::*;

use crate::endpoint::spec::error::{SpecError, SpecErrorView};
use crate::text::text_eq;

verus! {

/// The transports an endpoint can use.
#[derive(Debug, Clone, Copy, PartialEq, Eq, Hash, Structural)]
pub enum Scheme {
    Serial,
    UdpServer,
    UdpClient,
    TcpServer,
    TcpClient,
}

/// The scheme that `raw` names.
pub open spec fn scheme_spec(raw: Seq<char>) -> Option<Scheme> {
    if raw == "serial"@ {
        Some(Scheme::Serial)
    } else if raw == "udps"@ {
        Some(Scheme::UdpServer)
    } else if raw == "udpc"@ {
        Some(Scheme::UdpClient)
    } else if raw == "tcps"@ {
        Some(Scheme::TcpServer)
    } else if raw == "tcpc"@ {
        Some(Scheme::TcpClient)
    } else {
        None
    }
}

impl Scheme {
    /// The name of the scheme.
    pub open spec fn text(self) -> Seq<char> {
        match self {
            Scheme::Serial => "serial"@,
            Scheme::UdpServer => "udps"@,
            Scheme::UdpClient => "udpc"@,
            Scheme::TcpServer => "tcps"@,
            Scheme::TcpClient => "tcpc"@,
        }
    }

    /// The name of the scheme: the prefix of a specification string and the `type` of a
    /// configuration entry.
    pub fn as_str(self) -> (r: &'static str)
        ensures
            r@ == self.text(),
    {
        match self {
            Scheme::Serial => "serial",
            Scheme::UdpServer => "udps",
            Scheme::UdpClient => "udpc",
            Scheme::TcpServer => "tcps",
            Scheme::TcpClient => "tcpc",
        }
    }

    /// The scheme that `raw` names; `None` where it names none.
    pub fn try_from_str(raw: &str) -> (r: Option<Scheme>)
        ensures
            r == scheme_spec(raw@),
    {
        if text_eq(raw, "serial") {
            Some(Scheme::Serial)
        } else if text_eq(raw, "udps") {
            Some(Scheme::UdpServer)
        } else if text_eq(raw, "udpc") {
            Some(Scheme::UdpClient)
        } else if text_eq(raw, "tcps") {
            Some(Scheme::TcpServer)
        } else if text_eq(raw, "tcpc") {
            Some(Scheme::TcpClient)
        } else {
            None
        }
    }

    /// The scheme that the prefix of a specification string names.
    pub fn from_cli_prefix(raw: &str) -> (r: Result<Scheme, SpecError>)
        ensures
            match r {
                Ok(scheme) => scheme_spec(raw@) == Some(scheme),
                Err(e) => scheme_spec(raw@) is None && e@ == SpecErrorView::UnknownScheme(raw@),
            },
    {
        match Scheme::try_from_str(raw) {
            Some(scheme) => Ok(scheme),
            None => Err(SpecError::UnknownScheme(raw.to_owned())),
        }
    }
}

/// A scheme is found again under its own name.
pub proof fn law_scheme_name_reads_back(scheme: Scheme)
    ensures
        scheme_spec(scheme.text()) == Some(scheme),
{
    reveal_strlit("serial");
    reveal_strlit("udps");
    reveal_strlit("udpc");
    reveal_strlit("tcps");
    reveal_strlit("tcpc");
    assert("serial"@.len() == 6 && "udps"@.len() == 4);
    assert("udps"@[0] == 'u' && "udpc"@[0] == 'u' && "tcps"@[0] == 't' && "tcpc"@[0] == 't');
    assert("udps"@[3] == 's' && "udpc"@[3] == 'c' && "tcps"@[3] == 's' && "tcpc"@[3] == 'c');
}

} // verus!
