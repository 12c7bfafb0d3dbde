//! The address grabber: per pipeline it determines the current address for
//! one interface and IP family, and emits only genuine changes. The V4
//! source is the body of an external echo call; the V6 source is the OS's
//! per-interface address table, read line by line. The calls and reads
//! happen outside; every decision on their results is made here.
use vstd::prelude::*;

use crate::addr::{Address, AddressView};
use crate::text::{
    all_hex_digits, hex_num, hex_val_of, lemma_hex_num_bound, lemma_hex_num_step,
    parse_u8_hex, parse_u8_hex_spec, split_char, split_on, split_whitespace_fields, str_eq,
    trim_spec, ws_fields,
};
use crate::IpVersion;

verus! {

/// Why a 32-digit interface-table address field failed to decode.
#[derive(Clone, Copy, Debug, PartialEq, Eq, Structural)]
pub enum ParseError {
    LenMismatch,
    InvalidStr,
}

/// Why one poll failed. Transport faults carry the collaborator's text.
#[derive(Debug)]
pub enum Error {
    OpenFileError(String),
    ReadLineError(String),
    ParseError(ParseError),
    NoneMatched,
    HttpError(String),
    AddrParseError,
}

/// What the poll loop does after one poll: emit a changed address and poll
/// again at once, wait a full interval, or retry at the fast cadence.
#[derive(Debug)]
pub enum PollStep {
    Emit(Address),
    WaitNormal,
    WaitFast,
}

/// Per-pipeline grabber state: the watched interface, the configured family
/// and cadence, and the last observed address.
pub struct IpGrabber {
    pub iface: String,
    pub ip_version: IpVersion,
    pub poll_secs: u64,
    pub last_ip: Option<Address>,
}

// ---------------------------------------------------------------------------
// The interface-table address field
// ---------------------------------------------------------------------------
/// What the 32-hex-digit address field of a table line decodes to: exactly
/// eight 16-bit groups, or the distinct failure for a wrong length or a
/// non-hex character.
pub open spec fn parse_if_addr_spec(s: Seq<char>) -> Result<Seq<u16>, ParseError> {
    if s.len() != 32 {
        Err(ParseError::LenMismatch)
    } else if !all_hex_digits(s) {
        Err(ParseError::InvalidStr)
    } else {
        Ok(Seq::new(8, |i: int| hex_num(s.subrange(4 * i, 4 * i + 4)) as u16))
    }
}

// ---------------------------------------------------------------------------
// Line eligibility and selection
// ---------------------------------------------------------------------------
/// The scope field of a table line, a hex byte; invalid hex reads as 0xFF,
/// which no check accepts.
pub open spec fn scope_of(fs: Seq<Seq<char>>) -> u8 {
    match parse_u8_hex_spec(fs[3]) {
        Some(v) => v,
        None => 0xFF,
    }
}

/// The flags field of a table line, read like the scope field.
pub open spec fn flags_of(fs: Seq<Seq<char>>) -> u8 {
    match parse_u8_hex_spec(fs[4]) {
        Some(v) => v,
        None => 0xFF,
    }
}

/// A stable global line for `iface`: at least six fields, the right
/// interface, global scope, neither temporary nor deprecated.
pub open spec fn line_eligible(line: Seq<char>, iface: Seq<char>) -> bool {
    let fs = ws_fields(line);
    fs.len() >= 6 && fs[5] == iface && scope_of(fs) == 0 && (flags_of(fs) & 0x01) != 0x01 && (
    flags_of(fs) & 0x20) != 0x20
}

/// The first eligible line of the table, in table order.
pub open spec fn select_line(lines: Seq<Seq<char>>, iface: Seq<char>) -> Option<Seq<char>>
    decreases lines.len(),
{
    if lines.len() == 0 {
        None
    } else if line_eligible(lines[0], iface) {
        Some(lines[0])
    } else {
        select_line(lines.drop_first(), iface)
    }
}

/// The chosen line is the first eligible one in table order, and a table
/// with no eligible line selects nothing.
pub proof fn lemma_select_line_first(lines: Seq<Seq<char>>, iface: Seq<char>)
    ensures
        select_line(lines, iface) matches Some(l) ==> exists|i: int|
            0 <= i < lines.len() && lines[i] == l && line_eligible(#[trigger] lines[i], iface) && (
            forall|j: int| 0 <= j < i ==> !line_eligible(#[trigger] lines[j], iface)),
        select_line(lines, iface) is None ==> forall|i: int|
            0 <= i < lines.len() ==> !line_eligible(#[trigger] lines[i], iface),
    decreases lines.len(),
{
    if lines.len() > 0 {
        lemma_select_line_first(lines.drop_first(), iface);
        assert(forall|i: int|
            0 <= i < lines.len() - 1 ==> #[trigger] lines.drop_first()[i] == lines[i + 1]);
        if !line_eligible(lines[0], iface) {
            match select_line(lines, iface) {
                Some(l) => {
                    let i = choose|i: int|
                        0 <= i < lines.drop_first().len() && lines.drop_first()[i] == l
                            && line_eligible(#[trigger] lines.drop_first()[i], iface) && (forall|
                            j: int,
                        |
                            0 <= j < i ==> !line_eligible(
                                #[trigger] lines.drop_first()[j],
                                iface,
                            ));
                    assert(lines[i + 1] == l && line_eligible(lines[i + 1], iface));
                    assert forall|j: int| 1 <= j < i + 1 implies !line_eligible(
                        #[trigger] lines[j],
                        iface,
                    ) by {
                        assert(lines.drop_first()[j - 1] == lines[j]);
                    }
                    assert(forall|j: int|
                        0 <= j < i + 1 ==> !line_eligible(#[trigger] lines[j], iface));
                },
                None => {
                    assert forall|i: int| 0 <= i < lines.len() implies !line_eligible(
                        #[trigger] lines[i],
                        iface,
                    ) by {
                        if i > 0 {
                            assert(lines.drop_first()[i - 1] == lines[i]);
                        }
                    }
                },
            }
        }
    }
}

proof fn lemma_select_skip(lines: Seq<Seq<char>>, iface: Seq<char>, i: int)
    requires
        0 <= i < lines.len(),
        !line_eligible(lines[i], iface),
    ensures
        select_line(lines.skip(i), iface) == select_line(lines.skip(i + 1), iface),
{
    assert(lines.skip(i)[0] == lines[i]);
    assert(lines.skip(i).drop_first() =~= lines.skip(i + 1));
}

impl IpGrabber {
    /// A fresh grabber for one interface, family and cadence, with an empty
    /// last-observed cache.
    pub fn new(iface: String, ip_version: IpVersion, poll_secs: u64) -> (r: Result<Self, Error>)
        ensures
            r matches Ok(g) && g.iface@ == iface@ && g.ip_version == ip_version && g.poll_secs
                == poll_secs && g.last_ip is None,
    {
        Ok(Self { iface, ip_version, poll_secs, last_ip: None })
    }

    /// The last observed address, as a value.
    pub open spec fn last_view(&self) -> Option<AddressView> {
        match self.last_ip {
            Some(a) => Some(a@),
            None => None,
        }
    }

    /// Decodes the 32-hex-digit address field of a table line.
    pub fn parse_ipv6(hex: &str) -> (r: Result<Address, ParseError>)
        ensures
            r matches Ok(a) ==> parse_if_addr_spec(hex@) == Ok::<Seq<u16>, ParseError>(a@->groups)
                && a@ is V6 && a.wf(),
            r matches Err(e) ==> parse_if_addr_spec(hex@) == Err::<Seq<u16>, ParseError>(e),
    {
        let n = hex.unicode_len();
        if n != 32 {
            return Err(ParseError::LenMismatch);
        }
        let mut groups: Vec<u16> = Vec::new();
        let mut i: usize = 0;
        while i < 8
            invariant
                0 <= i <= 8,
                n == 32,
                n as nat == hex@.len(),
                groups@.len() == i,
                all_hex_digits(hex@.take(4 * i as int)),
                forall|j: int|
                    0 <= j < i ==> #[trigger] groups@[j] as nat == hex_num(
                        hex@.subrange(4 * j, 4 * j + 4),
                    ),
            decreases 8 - i,
        {
            let ghost u = hex@.subrange(4 * i as int, 4 * i as int + 4);
            let mut acc: u32 = 0;
            let mut k: usize = 0;
            while k < 4
                invariant
                    0 <= k <= 4,
                    0 <= i < 8,
                    n == 32,
                    n as nat == hex@.len(),
                    u == hex@.subrange(4 * i as int, 4 * i as int + 4),
                    all_hex_digits(u.take(k as int)),
                    acc as nat == hex_num(u.take(k as int)),
                    acc < 65536,
                decreases 4 - k,
            {
                let c = hex.get_char(4 * i + k);
                assert(u[k as int] == hex@[4 * i as int + k]);
                let d = hex_val_of(c);
                if d >= 16 {
                    assert(!crate::text::is_hex_digit(hex@[4 * i as int + k]));
                    assert(!all_hex_digits(hex@));
                    return Err(ParseError::InvalidStr);
                }
                proof {
                    lemma_hex_num_step(u, k as int);
                    assert(all_hex_digits(u.take(k as int + 1))) by {
                        assert(forall|j: int|
                            0 <= j < k ==> #[trigger] u.take(k as int + 1)[j] == u.take(
                                k as int,
                            )[j]);
                        assert(u.take(k as int + 1)[k as int] == u[k as int]);
                    }
                    lemma_hex_num_bound(u.take(k as int + 1));
                }
                acc = acc * 16 + d as u32;
                k = k + 1;
            }
            proof {
                assert(u.take(4) =~= u);
                assert(all_hex_digits(hex@.take(4 * (i + 1) as int))) by {
                    assert(forall|j: int|
                        0 <= j < 4 * i ==> #[trigger] hex@.take(4 * (i + 1) as int)[j] == hex@.take(
                            4 * i as int,
                        )[j]);
                    assert(forall|j: int|
                        4 * i <= j < 4 * (i + 1) ==> #[trigger] hex@.take(4 * (i + 1) as int)[j]
                            == u[j - 4 * i]);
                }
            }
            groups.push(acc as u16);
            i = i + 1;
        }
        proof {
            assert(hex@.take(32) =~= hex@);
            assert(groups@ =~= Seq::new(8, |j: int| hex_num(hex@.subrange(4 * j, 4 * j + 4)) as u16));
        }
        Ok(Address::V6 { groups })
    }

    /// Reads the echo service's response body as the current V4 address:
    /// the trimmed body must be dotted-quad text.
    pub fn parse_echo_body(body: &str) -> (r: Result<Address, Error>)
        ensures
            r matches Ok(a) ==> crate::addr::parse_ipv4_spec(trim_spec(body@)) == Some(a@->octets)
                && a@ is V4 && a.wf(),
            r matches Err(e) ==> crate::addr::parse_ipv4_spec(trim_spec(body@)) is None
                && e is AddrParseError,
    {
        let t = crate::text::trim_str(body);
        match crate::addr::parse_ipv4_text(t.as_str()) {
            Some(a) => Ok(a),
            None => Err(Error::AddrParseError),
        }
    }

    /// Scans the interface-address table for this grabber's interface and
    /// picks the first stable global line in table order; its address field
    /// decides the outcome. No eligible line is the distinct "none matched"
    /// failure.
    pub fn get_stable_global_ipv6(&self, table: &str) -> (r: Result<Address, Error>)
        ensures
            select_line(split_on(table@, '\n'), self.iface@) matches Some(line) ==> (match
                parse_if_addr_spec(ws_fields(line)[0]) {
                Ok(groups) => r matches Ok(a) && a@ == (AddressView::V6 { groups }) && a.wf(),
                Err(pe) => r matches Err(e) && e matches Error::ParseError(pe2) && pe2 == pe,
            }),
            select_line(split_on(table@, '\n'), self.iface@) is None ==> (r matches Err(e)
                && e is NoneMatched),
    {
        let lines = split_char(table, '\n');
        let ghost ls = split_on(table@, '\n');
        let n = lines.len();
        let mut i: usize = 0;
        proof {
            assert(ls.skip(0) =~= ls);
        }
        while i < n
            invariant
                0 <= i <= n,
                n == lines@.len(),
                crate::text::views_of(lines@) == ls,
                ls == split_on(table@, '\n'),
                select_line(ls, self.iface@) == select_line(ls.skip(i as int), self.iface@),
            decreases n - i,
        {
            assert(lines@[i as int]@ == ls[i as int]);
            let parts = split_whitespace_fields(lines[i].as_str());
            let ghost fs = ws_fields(ls[i as int]);
            let eligible: bool = if parts.len() < 6 {
                false
            } else {
                assert(parts@[5]@ == fs[5]);
                assert(parts@[3]@ == fs[3]);
                assert(parts@[4]@ == fs[4]);
                if !str_eq(parts[5].as_str(), self.iface.as_str()) {
                    false
                } else {
                    let scope = match parse_u8_hex(parts[3].as_str()) {
                        Some(v) => v,
                        None => 0xFF,
                    };
                    let flags = match parse_u8_hex(parts[4].as_str()) {
                        Some(v) => v,
                        None => 0xFF,
                    };
                    scope == 0x00 && (flags & 0x01) != 0x01 && (flags & 0x20) != 0x20
                }
            };
            assert(eligible == line_eligible(ls[i as int], self.iface@));
            if eligible {
                proof {
                    assert(ls.skip(i as int)[0] == ls[i as int]);
                    assert(select_line(ls.skip(i as int), self.iface@) == Some(ls[i as int]));
                }
                assert(parts@[0]@ == fs[0]);
                let res = Self::parse_ipv6(parts[0].as_str());
                match res {
                    Ok(a) => {
                        return Ok(a);
                    },
                    Err(pe) => {
                        return Err(Error::ParseError(pe));
                    },
                }
            }
            proof {
                lemma_select_skip(ls, self.iface@, i as int);
            }
            i = i + 1;
        }
        proof {
            assert(ls.skip(n as int) =~= Seq::<Seq<char>>::empty());
        }
        Err(Error::NoneMatched)
    }

    /// One turn of the poll loop: a failed poll leaves the cache untouched
    /// and retries at the fast cadence; an unchanged address waits a full
    /// interval; a changed address updates the cache first and is emitted.
    pub fn on_poll(&mut self, outcome: Result<Address, Error>) -> (step: PollStep)
        ensures
            outcome matches Err(_) ==> *final(self) == *old(self) && step is WaitFast,
            outcome matches Ok(ip) && old(self).last_view() == Some(ip@) ==> *final(self)
                == *old(self) && step is WaitNormal,
            outcome matches Ok(ip) ==> (old(self).last_view() != Some(ip@)
                ==> final(self).last_view() == Some(ip@) && final(self).iface == old(self).iface
                && final(self).ip_version == old(self).ip_version && final(self).poll_secs
                == old(self).poll_secs && (step matches PollStep::Emit(e) && e@ == ip@)),
            step is Emit <==> (outcome matches Ok(ip) && emits(old(self).last_view(), ip@)),
    {
        match outcome {
            Err(_) => PollStep::WaitFast,
            Ok(ip) => {
                let unchanged: bool = match &self.last_ip {
                    Some(last) => last.same_as(&ip),
                    None => false,
                };
                if unchanged {
                    PollStep::WaitNormal
                } else {
                    let emitted = ip.duplicate();
                    self.last_ip = Some(ip);
                    PollStep::Emit(emitted)
                }
            },
        }
    }
}

// ---------------------------------------------------------------------------
// Change detection over a whole poll sequence
// ---------------------------------------------------------------------------
/// Whether a successfully polled address is emitted: only if it differs
/// from the cached last observation.
pub open spec fn emits(last: Option<AddressView>, ip: AddressView) -> bool {
    last != Some(ip)
}

/// The addresses a sequence of successful polls emits, starting from the
/// given cache.
pub open spec fn emissions(last: Option<AddressView>, polls: Seq<AddressView>) -> Seq<AddressView>
    decreases polls.len(),
{
    if polls.len() == 0 {
        Seq::empty()
    } else {
        (if emits(last, polls[0]) {
            seq![polls[0]]
        } else {
            Seq::<AddressView>::empty()
        }) + emissions(Some(polls[0]), polls.drop_first())
    }
}

proof fn lemma_emissions_constant(a: AddressView, polls: Seq<AddressView>)
    requires
        forall|i: int| 0 <= i < polls.len() ==> #[trigger] polls[i] == a,
    ensures
        emissions(Some(a), polls) == Seq::<AddressView>::empty(),
    decreases polls.len(),
{
    if polls.len() > 0 {
        assert(polls[0] == a);
        assert(forall|i: int|
            0 <= i < polls.len() - 1 ==> #[trigger] polls.drop_first()[i] == polls[i + 1]);
        lemma_emissions_constant(a, polls.drop_first());
        assert(Seq::<AddressView>::empty() + Seq::<AddressView>::empty()
            =~= Seq::<AddressView>::empty());
    }
}

/// From an empty cache, a run of polls that all see the same address emits
/// it exactly once, at the first poll.
pub proof fn lemma_identical_polls_emit_once(a: AddressView, polls: Seq<AddressView>)
    requires
        polls.len() >= 1,
        forall|i: int| 0 <= i < polls.len() ==> #[trigger] polls[i] == a,
    ensures
        emissions(None, polls) == seq![a],
{
    assert(polls[0] == a);
    assert(forall|i: int|
        0 <= i < polls.len() - 1 ==> #[trigger] polls.drop_first()[i] == polls[i + 1]);
    lemma_emissions_constant(a, polls.drop_first());
    assert(seq![a] + Seq::<AddressView>::empty() =~= seq![a]);
}

/// After the cache saw `a`, a run of polls that all see a distinct address
/// `b` emits it exactly once and the cache then holds `b`.
pub proof fn lemma_changed_poll_emits_once(a: AddressView, b: AddressView, polls: Seq<AddressView>)
    requires
        polls.len() >= 1,
        b != a,
        forall|i: int| 0 <= i < polls.len() ==> #[trigger] polls[i] == b,
    ensures
        emissions(Some(a), polls) == seq![b],
{
    assert(polls[0] == b);
    assert(forall|i: int|
        0 <= i < polls.len() - 1 ==> #[trigger] polls.drop_first()[i] == polls[i + 1]);
    lemma_emissions_constant(b, polls.drop_first());
    assert(seq![b] + Seq::<AddressView>::empty() =~= seq![b]);
}

} // verus!
