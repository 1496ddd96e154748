//! Internet addresses as the library holds them: the address in its canonical text, beside the
//! numbers that go with it.

use vstd::prelude::*;

use crate::text::{decimal_text, same_text};

verus! {

/// An IP address, in the text by which the standard library writes it.
#[derive(Debug, Clone, PartialEq, Eq)]
pub enum IpAddr {
    V4(String),
    V6(String),
}

/// An IP address with a port.
#[derive(Debug, Clone, PartialEq, Eq)]
pub enum SocketAddr {
    V4 { ip: String, port: u16 },
    V6 { ip: String, port: u16, scope_id: u32 },
}

/// An IP address by its contents.
#[verifier::ext_equal]
pub enum IpModel {
    V4(Seq<char>),
    V6(Seq<char>),
}

/// A socket address by its contents.
#[verifier::ext_equal]
pub enum SocketModel {
    V4 { ip: Seq<char>, port: u16 },
    V6 { ip: Seq<char>, port: u16, scope_id: u32 },
}

impl View for IpAddr {
    type V = IpModel;

    open spec fn view(&self) -> IpModel {
        match self {
            IpAddr::V4(ip) => IpModel::V4(ip@),
            IpAddr::V6(ip) => IpModel::V6(ip@),
        }
    }
}

impl View for SocketAddr {
    type V = SocketModel;

    open spec fn view(&self) -> SocketModel {
        match *self {
            SocketAddr::V4 { ip, port } => SocketModel::V4 { ip: ip@, port },
            SocketAddr::V6 { ip, port, scope_id } => SocketModel::V6 { ip: ip@, port, scope_id },
        }
    }
}

impl SocketModel {
    /// `ip` at `port`, with no scope.
    pub open spec fn at(ip: IpModel, port: u16) -> SocketModel {
        match ip {
            IpModel::V4(ip) => SocketModel::V4 { ip, port },
            IpModel::V6(ip) => SocketModel::V6 { ip, port, scope_id: 0 },
        }
    }

    pub open spec fn port(self) -> u16 {
        match self {
            SocketModel::V4 { ip, port } => port,
            SocketModel::V6 { ip, port, scope_id } => port,
        }
    }

    /// The text of the address: the port follows a colon, and an IPv6 address stands in brackets,
    /// with its scope behind a percent sign where it has one.
    pub open spec fn text(self) -> Seq<char> {
        let colon = seq![':'];
        match self {
            SocketModel::V4 { ip, port } => ip + colon + crate::text::decimal(port as nat),
            SocketModel::V6 { ip, port, scope_id } => {
                let scope = if scope_id == 0 {
                    Seq::<char>::empty()
                } else {
                    seq!['%'] + crate::text::decimal(scope_id as nat)
                };
                seq!['['] + ip + scope + seq![']'] + colon + crate::text::decimal(port as nat)
            },
        }
    }

    /// The address to reach a listener on this one from the same machine: the loopback address
    /// where it listens on every address of its family.
    pub open spec fn reachable(self) -> SocketModel {
        match self {
            SocketModel::V4 { ip, port } => if ip == "0.0.0.0"@ {
                SocketModel::V4 { ip: "127.0.0.1"@, port }
            } else {
                self
            },
            SocketModel::V6 { ip, port, scope_id } => if ip == "::"@ {
                SocketModel::V6 { ip: "::1"@, port, scope_id }
            } else {
                self
            },
        }
    }
}

impl SocketAddr {
    /// `ip` at `port`.
    pub fn new(ip: &IpAddr, port: u16) -> (r: SocketAddr)
        ensures
            r@ == SocketModel::at(ip@, port),
    {
        match ip {
            IpAddr::V4(ip) => SocketAddr::V4 { ip: ip.clone(), port },
            IpAddr::V6(ip) => SocketAddr::V6 { ip: ip.clone(), port, scope_id: 0 },
        }
    }

    pub fn port(&self) -> (r: u16)
        ensures
            r == self@.port(),
    {
        match self {
            SocketAddr::V4 { ip: _, port } => *port,
            SocketAddr::V6 { ip: _, port, scope_id: _ } => *port,
        }
    }

    /// The text of the address.
    pub fn to_string(&self) -> (r: String)
        ensures
            r@ == self@.text(),
    {
        let mut r = String::new();
        match self {
            SocketAddr::V4 { ip, port } => {
                r.append(ip.as_str());
                r.push(':');
                r.append(decimal_text(*port as u64).as_str());
            },
            SocketAddr::V6 { ip, port, scope_id } => {
                r.push('[');
                r.append(ip.as_str());
                if *scope_id != 0 {
                    r.push('%');
                    r.append(decimal_text(*scope_id as u64).as_str());
                }
                r.push(']');
                r.push(':');
                r.append(decimal_text(*port as u64).as_str());
            },
        }
        assert(r@ =~= self@.text());
        r
    }

    /// Whether both are the same address.
    pub fn same(&self, other: &SocketAddr) -> (r: bool)
        ensures
            r == (self@ == other@),
    {
        match (self, other) {
            (
                SocketAddr::V4 { ip: a, port: p },
                SocketAddr::V4 { ip: b, port: q },
            ) => *p == *q && same_text(a.as_str(), b.as_str()),
            (
                SocketAddr::V6 { ip: a, port: p, scope_id: s },
                SocketAddr::V6 { ip: b, port: q, scope_id: t },
            ) => *p == *q && *s == *t && same_text(a.as_str(), b.as_str()),
            _ => false,
        }
    }

    /// The address to reach a listener on this one from the same machine.
    pub fn reachable(&self) -> (r: SocketAddr)
        ensures
            r@ == self@.reachable(),
    {
        match self {
            SocketAddr::V4 { ip, port } => SocketAddr::V4 {
                ip: if same_text(ip.as_str(), "0.0.0.0") {
                    "127.0.0.1".to_owned()
                } else {
                    ip.clone()
                },
                port: *port,
            },
            SocketAddr::V6 { ip, port, scope_id } => SocketAddr::V6 {
                ip: if same_text(ip.as_str(), "::") {
                    "::1".to_owned()
                } else {
                    ip.clone()
                },
                port: *port,
                scope_id: *scope_id,
            },
        }
    }
}

// ---------------------------------------------------------------------------------------------
// Laws
// ---------------------------------------------------------------------------------------------

/// Whether `text` writes `n` in digits, without leading zeros.
pub open spec fn writes(text: Seq<char>, n: nat) -> bool {
    &&& crate::text::natural(text) == Some(n)
    &&& forall|i: int| 0 <= i < text.len() ==> "0123456789"@.contains(#[trigger] text[i])
    &&& text.len() == 1 || text[0] != '0'
}

/// The text of an IPv4 address is the IP address, a colon and the port in decimal. That of an
/// IPv6 address has the IP address in brackets, and behind it, still in the brackets, a percent
/// sign and the scope in decimal where there is a scope.
pub proof fn addresses_are_written(ip: Seq<char>, port: u16, scope_id: u32)
    ensures
        ({
            let text = SocketModel::V4 { ip, port }.text();
            let n = ip.len() as int;
            &&& text.len() > n + 1
            &&& text.take(n) == ip
            &&& text[n] == ':'
            &&& writes(text.skip(n + 1), port as nat)
        }),
        ({
            let text = SocketModel::V6 { ip, port, scope_id: 0 }.text();
            let n = ip.len() as int;
            &&& text.len() > n + 3
            &&& text[0] == '['
            &&& text.subrange(1, n + 1) == ip
            &&& text[n + 1] == ']'
            &&& text[n + 2] == ':'
            &&& writes(text.skip(n + 3), port as nat)
        }),
        scope_id != 0 ==> exists|scope: Seq<char>|
            {
                let text = SocketModel::V6 { ip, port, scope_id }.text();
                let n = ip.len() + scope.len() as int;
                &&& #[trigger] writes(scope, scope_id as nat)
                &&& text.len() > n + 4
                &&& text[0] == '['
                &&& text.subrange(1, ip.len() as int + 1) == ip
                &&& text[ip.len() as int + 1] == '%'
                &&& text.subrange(ip.len() as int + 2, n + 2) == scope
                &&& text[n + 2] == ']'
                &&& text[n + 3] == ':'
                &&& writes(text.skip(n + 4), port as nat)
            },
{
    let p = crate::text::decimal(port as nat);
    lemma_decimal_writes(port as nat);
    lemma_decimal_writes(scope_id as nat);
    let n = ip.len() as int;
    let four = SocketModel::V4 { ip, port }.text();
    assert(four.take(n) =~= ip);
    assert(four.skip(n + 1) =~= p);
    let six = SocketModel::V6 { ip, port, scope_id: 0 }.text();
    assert(six.subrange(1, n + 1) =~= ip);
    assert(six.skip(n + 3) =~= p);
    if scope_id != 0 {
        let scope = crate::text::decimal(scope_id as nat);
        let scoped = SocketModel::V6 { ip, port, scope_id }.text();
        assert(scoped.subrange(1, n + 1) =~= ip);
        assert(scoped.subrange(n + 2, n + scope.len() + 2) =~= scope);
        assert(scoped.skip(n + scope.len() + 4) =~= p);
        assert(writes(scope, scope_id as nat));
    }
}

proof fn lemma_decimal_writes(n: nat)
    ensures
        writes(crate::text::decimal(n), n),
        crate::text::decimal(n).len() > 0,
{
    crate::text::decimals_are_short(n);
    crate::text::decimal_reads_back(n);
}

/// An IP address at a port is of the family of the IP address, keeps its text and the port, and
/// has no scope.
pub proof fn ports_are_kept(ip: IpModel, port: u16)
    ensures
        SocketModel::at(ip, port).port() == port,
        ip is V4 ==> SocketModel::at(ip, port) == (SocketModel::V4 { ip: ip->V4_0, port }),
        ip is V6 ==> SocketModel::at(ip, port) == (SocketModel::V6 {
            ip: ip->V6_0,
            port,
            scope_id: 0,
        }),
{
}

/// The address that reaches a listener has its port, its family and its scope. It is the loopback
/// address of the family exactly where the listener is on every address, and else the listener's
/// own.
pub proof fn listeners_are_reached_at_their_port(listener: SocketModel)
    ensures
        ({
            let reached = listener.reachable();
            &&& reached.port() == listener.port()
            &&& reached is V4 <==> listener is V4
            &&& listener is V4 ==> reached->V4_port == listener->V4_port
            &&& listener is V6 ==> reached->V6_port == listener->V6_port && reached->scope_id
                == listener->scope_id
            &&& listener is V4 && listener->V4_ip == "0.0.0.0"@ ==> reached->V4_ip == "127.0.0.1"@
            &&& listener is V6 && listener->V6_ip == "::"@ ==> reached->V6_ip == "::1"@
            &&& listener is V4 && listener->V4_ip != "0.0.0.0"@ ==> reached == listener
            &&& listener is V6 && listener->V6_ip != "::"@ ==> reached == listener
            &&& reached.reachable() == reached
        }),
{
    reveal_strlit("0.0.0.0");
    reveal_strlit("127.0.0.1");
    reveal_strlit("::");
    reveal_strlit("::1");
    assert("127.0.0.1"@.len() != "0.0.0.0"@.len());
    assert("::1"@.len() != "::"@.len());
}

/// The contents of an address are its family, its text, its port and its scope.
pub proof fn address_contents(ip: IpAddr, addr: SocketAddr)
    ensures
        ip is V4 ==> ip@ == IpModel::V4(ip->V4_0@),
        ip is V6 ==> ip@ == IpModel::V6(ip->V6_0@),
        addr is V4 ==> addr@ == (SocketModel::V4 { ip: addr->V4_ip@, port: addr->V4_port }),
        addr is V6 ==> addr@ == (SocketModel::V6 {
            ip: addr->V6_ip@,
            port: addr->V6_port,
            scope_id: addr->scope_id,
        }),
        addr is V4 ==> addr@.port() == addr->V4_port,
        addr is V6 ==> addr@.port() == addr->V6_port,
{
}

} // verus!
