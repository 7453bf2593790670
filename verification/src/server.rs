//! The development server's verified core: the address a server is
//! created from, the decision which filesystem events trigger a rebuild,
//! and the reload signal bus that fans a rebuild out to every attached
//! browser connection.
use vstd::prelude::*;
use vstd::string::*;

use crate::text::{spec_find, find_char, lemma_spec_find};

verus! {

/// The value of a run of decimal digits.
pub open spec fn spec_digits_value(ds: Seq<char>) -> int
    decreases ds.len(),
{
    if ds.len() == 0 {
        0
    } else {
        spec_digits_value(ds.drop_last()) * 10 + (ds.last() as int - '0' as int)
    }
}

/// `c` is a decimal digit.
pub open spec fn is_digit(c: char) -> bool {
    '0' as int <= c as int && c as int <= '9' as int
}

/// All characters are decimal digits.
pub open spec fn spec_all_digits(ds: Seq<char>) -> bool {
    forall|i: int| 0 <= i < ds.len() ==> is_digit(#[trigger] ds[i])
}

/// What `str::parse::<u16>` accepts: an optional leading `+`, then at
/// least one decimal digit, with a value of at most `u16::MAX`.
pub open spec fn spec_parse_u16(s: Seq<char>) -> Option<u16> {
    let ds = if s.len() > 0 && s[0] == '+' {
        s.drop_first()
    } else {
        s
    };
    if ds.len() == 0 || !spec_all_digits(ds) {
        None
    } else if spec_digits_value(ds) <= 65535 {
        Some(spec_digits_value(ds) as u16)
    } else {
        None
    }
}

/// A digit run's value is nonnegative, and never shrinks as digits are
/// appended.
proof fn lemma_digits_value_grows(ds: Seq<char>, i: int)
    requires
        0 <= i <= ds.len(),
        spec_all_digits(ds),
    ensures
        spec_digits_value(ds.take(i)) >= 0,
        spec_digits_value(ds) >= spec_digits_value(ds.take(i)),
    decreases ds.len(),
{
    if ds.len() == 0 {
        assert(ds.take(i) =~= ds);
    } else if i == ds.len() {
        assert(ds.take(i) =~= ds);
        let dl = ds.drop_last();
        assert(spec_all_digits(dl));
        lemma_digits_value_grows(dl, dl.len() as int);
        assert(ds.last() as int - '0' as int >= 0);
    } else {
        let dl = ds.drop_last();
        assert(spec_all_digits(dl));
        assert(ds.take(i) =~= dl.take(i));
        lemma_digits_value_grows(dl, i);
        assert(ds.last() as int - '0' as int >= 0);
        assert(spec_digits_value(ds) >= spec_digits_value(dl));
    }
}

/// Parse a decimal port number as `str::parse::<u16>` would.
pub fn parse_u16(s: &str) -> (r: Option<u16>)
    ensures
        r == spec_parse_u16(s@),
{
    let len = s.unicode_len();
    let start: usize = if len > 0 && s.get_char(0) == '+' {
        1
    } else {
        0
    };
    let ghost ds = if s@.len() > 0 && s@[0] == '+' {
        s@.drop_first()
    } else {
        s@
    };
    proof {
        assert(ds =~= s@.skip(start as int));
    }
    if start == len {
        return None;
    }
    let mut acc: u32 = 0;
    let mut i: usize = start;
    proof {
        assert(ds.take(0) =~= Seq::<char>::empty());
    }
    while i < len
        invariant
            start <= i <= len,
            len == s@.len(),
            ds == s@.skip(start as int),
            ds == (if s@.len() > 0 && s@[0] == '+' {
                s@.drop_first()
            } else {
                s@
            }),
            ds.len() > 0,
            spec_all_digits(ds.take(i - start)),
            acc <= 65535,
            acc as int == spec_digits_value(ds.take(i - start)),
        decreases len - i,
    {
        let c = s.get_char(i);
        let cu = c as u32;
        if cu < ('0' as u32) || cu > ('9' as u32) {
            proof {
                assert(ds[i - start] == s@[i as int]);
                assert(!is_digit(ds[i - start]));
                assert(!spec_all_digits(ds));
            }
            return None;
        }
        let d = cu - ('0' as u32);
        proof {
            assert(ds[i - start] == s@[i as int]);
            assert(ds.take(i - start + 1).drop_last() =~= ds.take(i - start));
            assert(ds.take(i - start + 1).last() == ds[i - start]);
        }
        let next = acc * 10 + d;
        if next > 65535 {
            proof {
                assert(spec_digits_value(ds.take(i - start + 1)) == next);
                if spec_all_digits(ds) {
                    lemma_digits_value_grows(ds, i - start + 1);
                }
            }
            return None;
        }
        acc = next;
        i = i + 1;
    }
    proof {
        assert(ds.take(len - start) =~= ds);
    }
    Some(acc as u16)
}

/// The development server's listening address.
#[derive(Debug)]
pub struct SiteServer {
    /// The host part, before the first `:` of the address.
    pub host: String,
    /// The port, parsed from the text between the first and second `:`;
    /// zero when that text is no port number.
    pub port: u16,
}

/// The host a `host:port` address names.
pub open spec fn spec_address_host(address: Seq<char>) -> Seq<char> {
    address.take(spec_find(address, ':'))
}

/// The port a `host:port` address names: the text between the first and
/// second `:`, parsed as a number, or zero.
pub open spec fn spec_address_port(address: Seq<char>) -> u16 {
    let rest = address.skip(spec_find(address, ':') + 1);
    let port_str = rest.take(spec_find(rest, ':'));
    match spec_parse_u16(port_str) {
        Some(p) => p,
        None => 0,
    }
}

impl Default for SiteServer {
    /// The conventional development address, `127.0.0.1:8080`.
    fn default() -> (r: Self)
        ensures
            r.host@ == "127.0.0.1"@,
            r.port == 8080,
    {
        SiteServer { host: "127.0.0.1".to_owned(), port: 8080 }
    }
}

impl SiteServer {
    /// Split a `host:port` address. The address must carry a `:`; a port
    /// that is no number falls back to zero.
    pub fn new(address: &str) -> (r: Self)
        requires
            exists|i: int| 0 <= i < address@.len() && address@[i] == ':',
        ensures
            r.host@ == spec_address_host(address@),
            r.port == spec_address_port(address@),
    {
        let len = address.unicode_len();
        proof {
            lemma_spec_find(address@, ':');
            let w = choose|i: int| 0 <= i < address@.len() && address@[i] == ':';
            if spec_find(address@, ':') >= address@.len() {
                assert(address@[w] != ':');
            }
        }
        let ci = match find_char(address, ':') {
            Some(i) => i,
            None => {
                proof {
                    assert(false);
                }
                0
            },
        };
        proof {
            let sf = spec_find(address@, ':');
            if sf < ci {
                assert(address@[sf] == ':');
            }
            if ci < sf {
                assert(address@[ci as int] != ':');
            }
        }
        let host = address.substring_char(0, ci).to_owned();
        let rest = address.substring_char(ci + 1, len);
        proof {
            assert(host@ =~= spec_address_host(address@));
            assert(rest@ =~= address@.skip(spec_find(address@, ':') + 1));
            lemma_spec_find(rest@, ':');
        }
        let port_str = match find_char(rest, ':') {
            Some(j) => {
                proof {
                    let sf = spec_find(rest@, ':');
                    if sf < j {
                        assert(rest@[sf] == ':');
                    }
                    if j < sf {
                        assert(rest@[j as int] != ':');
                    }
                }
                rest.substring_char(0, j)
            },
            None => {
                proof {
                    if spec_find(rest@, ':') < rest@.len() {
                        assert(rest@[spec_find(rest@, ':')] == ':');
                    }
                    assert(rest@.take(spec_find(rest@, ':')) =~= rest@);
                }
                rest
            },
        };
        proof {
            assert(port_str@ =~= rest@.take(spec_find(rest@, ':')));
        }
        let port = match parse_u16(port_str) {
            Some(p) => p,
            None => 0,
        };
        SiteServer { host, port }
    }
}

/// A filesystem event under the content root, as the watcher reports it.
#[derive(Debug)]
pub enum WatchEvent {
    /// A file or directory appeared.
    Create(String),
    /// A file was written.
    Write(String),
    /// A file or directory disappeared.
    Remove(String),
    /// A file moved from one path to another.
    Rename(String, String),
    /// Anything else the watcher reports; no rebuild is owed for it.
    Other,
}

/// Which events oblige a rebuild: content appeared, changed, disappeared
/// or moved.
pub open spec fn spec_should_rebuild(e: &WatchEvent) -> bool {
    match e {
        WatchEvent::Create(_) => true,
        WatchEvent::Write(_) => true,
        WatchEvent::Remove(_) => true,
        WatchEvent::Rename(_, _) => true,
        WatchEvent::Other => false,
    }
}

/// Decide whether a watch event obliges a rebuild.
pub fn should_rebuild(e: &WatchEvent) -> (r: bool)
    ensures
        r == spec_should_rebuild(e),
{
    match e {
        WatchEvent::Create(_) => true,
        WatchEvent::Write(_) => true,
        WatchEvent::Remove(_) => true,
        WatchEvent::Rename(_, _) => true,
        WatchEvent::Other => false,
    }
}

/// The reload signal bus: a counter of published reload signals. Every
/// successful rebuild publishes exactly one signal; a subscription
/// remembers how many it has consumed.
#[derive(Debug, Clone, Copy, PartialEq, Eq, Structural)]
pub struct ReloadBus {
    /// How many reload signals have been published so far.
    pub published: u64,
}

/// One browser connection's subscription to the bus.
#[derive(Debug, Clone, Copy, PartialEq, Eq, Structural)]
pub struct Subscription {
    /// How many of the published signals this subscription has consumed.
    pub seen: u64,
}

/// How many signals a subscription has yet to consume.
pub open spec fn spec_pending(bus: ReloadBus, sub: Subscription) -> int {
    bus.published - sub.seen
}

impl ReloadBus {
    /// A bus over which nothing has been published yet.
    pub fn new() -> (r: Self)
        ensures
            r.published == 0,
    {
        ReloadBus { published: 0 }
    }

    /// Publish one reload signal. Dropped signals are not an error: a bus
    /// with no subscriptions publishes all the same.
    pub fn publish(&mut self)
        requires
            old(self).published < u64::MAX,
        ensures
            final(self).published == old(self).published + 1,
    {
        self.published = self.published + 1;
    }

    /// Attach a new subscription: it sees nothing published before it
    /// attached.
    pub fn attach(&self) -> (r: Subscription)
        ensures
            r.seen == self.published,
            spec_pending(*self, r) == 0,
    {
        Subscription { seen: self.published }
    }
}

impl Subscription {
    /// Consume the next pending signal, if one is pending.
    pub fn poll(&mut self, bus: &ReloadBus) -> (r: bool)
        requires
            old(self).seen <= bus.published,
        ensures
            r == (spec_pending(*bus, *old(self)) > 0),
            r ==> final(self).seen == old(self).seen + 1,
            !r ==> *final(self) == *old(self),
    {
        if self.seen < bus.published {
            self.seen = self.seen + 1;
            true
        } else {
            false
        }
    }
}

/// Fan-out: one publish hands every subscription that was attached
/// beforehand exactly one pending signal, and a subscription attached
/// after the publish has none pending until the next publish.
pub proof fn lemma_reload_fanout(
    bus: ReloadBus,
    bus2: ReloadBus,
    subs: Seq<Subscription>,
    late: Subscription,
)
    requires
        bus.published < u64::MAX,
        bus2.published == bus.published + 1,
        forall|i: int| 0 <= i < subs.len() ==> (#[trigger] subs[i]).seen == bus.published,
        late.seen == bus2.published,
    ensures
        forall|i: int| 0 <= i < subs.len() ==> spec_pending(bus2, #[trigger] subs[i]) == 1,
        spec_pending(bus2, late) == 0,
{
}

} // verus!
