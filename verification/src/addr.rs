//! The address model: a 4-byte or 16-byte value, its textual form, and the
//! parsers for the three places addresses arrive as text (the echo service
//! body, the interface table, and the persisted files).
use vstd::prelude::*;

use crate::text::{
    all_dec_digits, all_hex_digits, dec_num, dec_text, eq_char, has_none, hex_num, hex_text,
    lemma_dec_num_bound, lemma_dec_text_num, lemma_has_none_concat, lemma_hex_num_bound,
    lemma_hex_text_num, lemma_split_when_first, lemma_split_when_free, lemma_trim_id, space_pred,
    split_char, split_on, trim_spec, u16_to_hex, u8_to_dec, views_of,
};

verus! {

/// Mathematical value of an address: the bytes of a V4 address or the
/// eight 16-bit groups of a V6 address.
pub enum AddressView {
    V4 { octets: Seq<u8> },
    V6 { groups: Seq<u16> },
}

impl AddressView {
    pub open spec fn wf(self) -> bool {
        match self {
            AddressView::V4 { octets } => octets.len() == 4,
            AddressView::V6 { groups } => groups.len() == 8,
        }
    }
}

/// An IP address, exact value comparison.
#[derive(Debug)]
pub enum Address {
    V4 { octets: Vec<u8> },
    V6 { groups: Vec<u16> },
}

impl View for Address {
    type V = AddressView;

    open spec fn view(&self) -> AddressView {
        match self {
            Address::V4 { octets } => AddressView::V4 { octets: octets@ },
            Address::V6 { groups } => AddressView::V6 { groups: groups@ },
        }
    }
}

impl Address {
    pub open spec fn wf(&self) -> bool {
        self@.wf()
    }

    /// A V4 address from its four dotted-quad bytes.
    pub fn v4(a: u8, b: u8, c: u8, d: u8) -> (r: Address)
        ensures
            r@ == (AddressView::V4 { octets: seq![a, b, c, d] }),
            r.wf(),
    {
        let mut octets: Vec<u8> = Vec::new();
        octets.push(a);
        octets.push(b);
        octets.push(c);
        octets.push(d);
        proof {
            assert(octets@ =~= seq![a, b, c, d]);
        }
        Address::V4 { octets }
    }

    /// A V6 address from its eight 16-bit groups.
    pub fn v6(groups: Vec<u16>) -> (r: Address)
        requires
            groups@.len() == 8,
        ensures
            r@ == (AddressView::V6 { groups: groups@ }),
            r.wf(),
    {
        Address::V6 { groups }
    }

    /// Whether this value is well-formed, decided at run time.
    pub fn check_wf(&self) -> (r: bool)
        ensures
            r == self.wf(),
    {
        match self {
            Address::V4 { octets } => octets.len() == 4,
            Address::V6 { groups } => groups.len() == 8,
        }
    }

    /// A copy holding the same value.
    pub fn duplicate(&self) -> (r: Address)
        ensures
            r@ == self@,
    {
        match self {
            Address::V4 { octets } => Address::V4 { octets: copy_u8_vec(octets) },
            Address::V6 { groups } => Address::V6 { groups: copy_u16_vec(groups) },
        }
    }

    /// Exact value equality of two addresses.
    pub fn same_as(&self, other: &Address) -> (r: bool)
        ensures
            r == (self@ == other@),
    {
        match (self, other) {
            (Address::V4 { octets: a }, Address::V4 { octets: b }) => {
                proof {
                    assert((a@ =~= b@) == (a@ == b@));
                }
                vec_u8_eq(a, b)
            },
            (Address::V6 { groups: a }, Address::V6 { groups: b }) => {
                proof {
                    assert((a@ =~= b@) == (a@ == b@));
                }
                vec_u16_eq(a, b)
            },
            _ => false,
        }
    }
}

fn copy_u8_vec(v: &Vec<u8>) -> (r: Vec<u8>)
    ensures
        r@ == v@,
{
    let mut r: Vec<u8> = Vec::new();
    let mut i: usize = 0;
    while i < v.len()
        invariant
            0 <= i <= v@.len(),
            r@ =~= v@.take(i as int),
        decreases v@.len() - i,
    {
        r.push(v[i]);
        proof {
            assert(r@ =~= v@.take(i as int + 1));
        }
        i = i + 1;
    }
    proof {
        assert(v@.take(v@.len() as int) =~= v@);
    }
    r
}

fn copy_u16_vec(v: &Vec<u16>) -> (r: Vec<u16>)
    ensures
        r@ == v@,
{
    let mut r: Vec<u16> = Vec::new();
    let mut i: usize = 0;
    while i < v.len()
        invariant
            0 <= i <= v@.len(),
            r@ =~= v@.take(i as int),
        decreases v@.len() - i,
    {
        r.push(v[i]);
        proof {
            assert(r@ =~= v@.take(i as int + 1));
        }
        i = i + 1;
    }
    proof {
        assert(v@.take(v@.len() as int) =~= v@);
    }
    r
}

fn vec_u8_eq(a: &Vec<u8>, b: &Vec<u8>) -> (r: bool)
    ensures
        r == (a@ =~= b@),
{
    if a.len() != b.len() {
        return false;
    }
    let mut i: usize = 0;
    while i < a.len()
        invariant
            0 <= i <= a@.len(),
            a@.len() == b@.len(),
            forall|j: int| 0 <= j < i ==> a@[j] == b@[j],
        decreases a@.len() - i,
    {
        if a[i] != b[i] {
            return false;
        }
        i = i + 1;
    }
    true
}

fn vec_u16_eq(a: &Vec<u16>, b: &Vec<u16>) -> (r: bool)
    ensures
        r == (a@ =~= b@),
{
    if a.len() != b.len() {
        return false;
    }
    let mut i: usize = 0;
    while i < a.len()
        invariant
            0 <= i <= a@.len(),
            a@.len() == b@.len(),
            forall|j: int| 0 <= j < i ==> a@[j] == b@[j],
        decreases a@.len() - i,
    {
        if a[i] != b[i] {
            return false;
        }
        i = i + 1;
    }
    true
}

// ---------------------------------------------------------------------------
// Textual form
// ---------------------------------------------------------------------------
/// Dotted-quad text of a V4 address.
pub open spec fn v4_text(o: Seq<u8>) -> Seq<char> {
    dec_text(o[0] as nat) + seq!['.'] + dec_text(o[1] as nat) + seq!['.'] + dec_text(o[2] as nat)
        + seq!['.'] + dec_text(o[3] as nat)
}

/// Colon-separated text of a V6 address: eight lowercase hex groups without
/// leading zeros.
pub open spec fn v6_text(g: Seq<u16>) -> Seq<char> {
    hex_text(g[0] as nat) + seq![':'] + hex_text(g[1] as nat) + seq![':'] + hex_text(g[2] as nat)
        + seq![':'] + hex_text(g[3] as nat) + seq![':'] + hex_text(g[4] as nat) + seq![':']
        + hex_text(g[5] as nat) + seq![':'] + hex_text(g[6] as nat) + seq![':'] + hex_text(
        g[7] as nat,
    )
}

/// The textual form of an address, as it is persisted and as it is placed
/// into provider update URLs.
pub open spec fn addr_text(a: AddressView) -> Seq<char> {
    match a {
        AddressView::V4 { octets } => v4_text(octets),
        AddressView::V6 { groups } => v6_text(groups),
    }
}

/// Renders an address in its textual form.
pub fn address_to_text(a: &Address) -> (r: String)
    requires
        a.wf(),
    ensures
        r@ == addr_text(a@),
{
    match a {
        Address::V4 { octets } => {
            let r = u8_to_dec(octets[0]).concat(".").concat(u8_to_dec(octets[1]).as_str()).concat(
                ".",
            ).concat(u8_to_dec(octets[2]).as_str()).concat(".").concat(u8_to_dec(octets[3]).as_str());
            proof {
                reveal_strlit(".");
                assert("."@ =~= seq!['.']);
                assert(r@ =~= v4_text(octets@));
            }
            r
        },
        Address::V6 { groups } => {
            let r = u16_to_hex(groups[0]).concat(":").concat(u16_to_hex(groups[1]).as_str()).concat(
                ":",
            ).concat(u16_to_hex(groups[2]).as_str()).concat(":").concat(
                u16_to_hex(groups[3]).as_str(),
            ).concat(":").concat(u16_to_hex(groups[4]).as_str()).concat(":").concat(
                u16_to_hex(groups[5]).as_str(),
            ).concat(":").concat(u16_to_hex(groups[6]).as_str()).concat(":").concat(
                u16_to_hex(groups[7]).as_str(),
            );
            proof {
                reveal_strlit(":");
                assert(":"@ =~= seq![':']);
                assert(r@ =~= v6_text(groups@));
            }
            r
        },
    }
}

// ---------------------------------------------------------------------------
// Parsing
// ---------------------------------------------------------------------------
/// One dotted-quad field, as std reads it: one to three decimal digits,
/// no zero prefix, value at most 255.
pub open spec fn v4_part_ok(p: Seq<char>) -> bool {
    1 <= p.len() <= 3 && all_dec_digits(p) && dec_num(p) <= 255 && (p.len() == 1 || p[0] != '0')
}

/// One colon-separated group: one to four hexadecimal digits.
pub open spec fn v6_group_ok(p: Seq<char>) -> bool {
    1 <= p.len() <= 4 && all_hex_digits(p)
}

/// What dotted-quad text denotes, if well-formed.
pub open spec fn parse_ipv4_spec(s: Seq<char>) -> Option<Seq<u8>> {
    let parts = split_on(s, '.');
    if parts.len() == 4 && (forall|i: int| 0 <= i < 4 ==> v4_part_ok(#[trigger] parts[i])) {
        Some(Seq::new(4, |i: int| dec_num(parts[i]) as u8))
    } else {
        None
    }
}

/// Every listed part is a well-formed hex group.
pub open spec fn all_groups_ok(ps: Seq<Seq<char>>) -> bool {
    forall|i: int| 0 <= i < ps.len() ==> v6_group_ok(#[trigger] ps[i])
}

/// The group values a list of hex-group texts denotes.
pub open spec fn group_vals(ps: Seq<Seq<char>>) -> Seq<u16> {
    ps.map_values(|p: Seq<char>| hex_num(p) as u16)
}

pub open spec fn zero_groups(k: nat) -> Seq<u16> {
    Seq::new(k, |i: int| 0u16)
}

/// An adjacent colon pair stands at position `j` of `s`.
pub open spec fn dc_at(s: Seq<char>, j: int) -> bool {
    0 <= j && j + 1 < s.len() && s[j] == ':' && s[j + 1] == ':'
}

/// The position of the first adjacent colon pair, if any.
pub open spec fn first_dc(s: Seq<char>) -> Option<int>
    decreases s.len(),
{
    if s.len() < 2 {
        None
    } else if s[0] == ':' && s[1] == ':' {
        Some(0)
    } else {
        match first_dc(s.drop_first()) {
            Some(j) => Some(j + 1),
            None => None,
        }
    }
}

/// The groups on one side of the double colon: none at all for empty text.
pub open spec fn side_groups(t: Seq<char>) -> Seq<Seq<char>> {
    if t.len() == 0 {
        Seq::empty()
    } else {
        split_on(t, ':')
    }
}

/// What `::`-compressed group text denotes: the first double colon splits
/// the text, each side lists well-formed groups, and the gap is filled with
/// zero groups; the double colon must stand for at least one group.
pub open spec fn parse_ipv6_compressed_spec(s: Seq<char>) -> Option<Seq<u16>> {
    match first_dc(s) {
        None => None,
        Some(i) => {
            let lp = side_groups(s.take(i));
            let rp = side_groups(s.skip(i + 2));
            if all_groups_ok(lp) && all_groups_ok(rp) && lp.len() + rp.len() <= 7 {
                Some(
                    group_vals(lp) + zero_groups((8 - lp.len() - rp.len()) as nat) + group_vals(
                        rp,
                    ),
                )
            } else {
                None
            }
        },
    }
}

/// What V6 address text denotes: the full eight-group form, or the
/// `::`-compressed form. The forms that embed a dotted quad in the last
/// two groups are not read.
pub open spec fn parse_ipv6_spec(s: Seq<char>) -> Option<Seq<u16>> {
    let parts = split_on(s, ':');
    if parts.len() == 8 && all_groups_ok(parts) {
        Some(group_vals(parts))
    } else {
        parse_ipv6_compressed_spec(s)
    }
}

/// What an address in text denotes: dotted-quad first, then the V6 form.
pub open spec fn parse_address_spec(s: Seq<char>) -> Option<AddressView> {
    if parse_ipv4_spec(s) is Some {
        Some(AddressView::V4 { octets: parse_ipv4_spec(s)->0 })
    } else if parse_ipv6_spec(s) is Some {
        Some(AddressView::V6 { groups: parse_ipv6_spec(s)->0 })
    } else {
        None
    }
}

fn parse_v4_part(p: &str) -> (r: Option<u8>)
    ensures
        r is Some <==> v4_part_ok(p@),
        r is Some ==> dec_num(p@) == r->0 as nat,
{
    let n = p.unicode_len();
    if n == 0 || n > 3 {
        return None;
    }
    if n > 1 && p.get_char(0) == '0' {
        return None;
    }
    let mut acc: u32 = 0;
    let mut i: usize = 0;
    while i < n
        invariant
            0 <= i <= n <= 3,
            n as nat == p@.len(),
            all_dec_digits(p@.take(i as int)),
            acc as nat == dec_num(p@.take(i as int)),
            acc < 1000,
        decreases n - i,
    {
        let c = p.get_char(i);
        let d = crate::text::dec_val_of(c);
        if d >= 10 {
            assert(!crate::text::is_dec_digit(p@[i as int]));
            return None;
        }
        proof {
            crate::text::lemma_dec_num_step(p@, i as int);
            assert(all_dec_digits(p@.take(i as int + 1))) by {
                assert(forall|j: int|
                    0 <= j < i ==> #[trigger] p@.take(i as int + 1)[j] == p@.take(i as int)[j]);
                assert(p@.take(i as int + 1)[i as int] == p@[i as int]);
            }
            lemma_dec_num_bound(p@.take(i as int + 1));
        }
        acc = acc * 10 + d as u32;
        i = i + 1;
    }
    assert(p@.take(n as int) =~= p@);
    if acc > 255 {
        None
    } else {
        Some(acc as u8)
    }
}

fn parse_v6_group(p: &str) -> (r: Option<u16>)
    ensures
        r is Some <==> v6_group_ok(p@),
        r is Some ==> hex_num(p@) == r->0 as nat,
{
    let n = p.unicode_len();
    if n == 0 || n > 4 {
        return None;
    }
    let mut acc: u32 = 0;
    let mut i: usize = 0;
    while i < n
        invariant
            0 <= i <= n <= 4,
            n as nat == p@.len(),
            all_hex_digits(p@.take(i as int)),
            acc as nat == hex_num(p@.take(i as int)),
            acc < 65536,
        decreases n - i,
    {
        let c = p.get_char(i);
        let d = crate::text::hex_val_of(c);
        if d >= 16 {
            assert(!crate::text::is_hex_digit(p@[i as int]));
            return None;
        }
        proof {
            crate::text::lemma_hex_num_step(p@, i as int);
            assert(all_hex_digits(p@.take(i as int + 1))) by {
                assert(forall|j: int|
                    0 <= j < i ==> #[trigger] p@.take(i as int + 1)[j] == p@.take(i as int)[j]);
                assert(p@.take(i as int + 1)[i as int] == p@[i as int]);
            }
            lemma_hex_num_bound(p@.take(i as int + 1));
        }
        acc = acc * 16 + d as u32;
        i = i + 1;
    }
    assert(p@.take(n as int) =~= p@);
    Some(acc as u16)
}

/// Reads dotted-quad text, zero-prefixed octets rejected; `None` on
/// anything else.
pub fn parse_ipv4_text(s: &str) -> (r: Option<Address>)
    ensures
        r is Some ==> parse_ipv4_spec(s@) == Some(r->0@->octets) && r->0@ is V4 && r->0.wf(),
        r is None ==> parse_ipv4_spec(s@) is None,
{
    let parts = split_char(s, '.');
    let ghost sp = split_on(s@, '.');
    if parts.len() != 4 {
        return None;
    }
    let mut octets: Vec<u8> = Vec::new();
    let mut i: usize = 0;
    while i < 4
        invariant
            0 <= i <= 4,
            parts@.len() == 4,
            views_of(parts@) == sp,
            sp == split_on(s@, '.'),
            octets@.len() == i,
            forall|j: int|
                0 <= j < i ==> v4_part_ok(#[trigger] sp[j]) && octets@[j] as nat == dec_num(sp[j]),
        decreases 4 - i,
    {
        assert(parts@[i as int]@ == sp[i as int]);
        match parse_v4_part(parts[i].as_str()) {
            Some(b) => {
                octets.push(b);
            },
            None => {
                assert(!v4_part_ok(sp[i as int]));
                return None;
            },
        }
        i = i + 1;
    }
    proof {
        assert(octets@ =~= Seq::new(4, |j: int| dec_num(sp[j]) as u8));
    }
    Some(Address::V4 { octets })
}

/// Parses every listed part as a hex group, in order, appending the values
/// to `groups`.
fn parse_group_list(parts: &Vec<String>, groups: &mut Vec<u16>) -> (ok: bool)
    ensures
        ok ==> all_groups_ok(views_of(parts@)) && final(groups)@ == old(groups)@ + group_vals(
            views_of(parts@),
        ),
        !ok ==> !all_groups_ok(views_of(parts@)),
{
    let ghost vs = views_of(parts@);
    let n = parts.len();
    let mut i: usize = 0;
    while i < n
        invariant
            0 <= i <= n,
            n == parts@.len(),
            vs == views_of(parts@),
            groups@.len() == old(groups)@.len() + i,
            groups@.take(old(groups)@.len() as int) == old(groups)@,
            forall|j: int|
                0 <= j < i ==> v6_group_ok(#[trigger] vs[j]) && groups@[old(groups)@.len() + j]
                    as nat == hex_num(vs[j]),
        decreases n - i,
    {
        assert(parts@[i as int]@ == vs[i as int]);
        match parse_v6_group(parts[i].as_str()) {
            Some(g) => {
                let ghost before = groups@;
                groups.push(g);
                proof {
                    assert(groups@.take(old(groups)@.len() as int) =~= before.take(
                        old(groups)@.len() as int,
                    ));
                }
            },
            None => {
                assert(!v6_group_ok(vs[i as int]));
                return false;
            },
        }
        i = i + 1;
    }
    proof {
        assert(groups@ =~= old(groups)@ + group_vals(vs)) by {
            assert(group_vals(vs).len() == vs.len());
            assert forall|j: int| 0 <= j < groups@.len() implies groups@[j] == (old(groups)@
                + group_vals(vs))[j] by {
                if j < old(groups)@.len() {
                    assert(groups@.take(old(groups)@.len() as int)[j] == groups@[j]);
                } else {
                    assert(group_vals(vs)[j - old(groups)@.len()] == hex_num(
                        vs[j - old(groups)@.len()],
                    ) as u16);
                }
            }
        }
    }
    true
}

proof fn lemma_first_dc_found(s: Seq<char>, i: int)
    requires
        dc_at(s, i),
        forall|j: int| 0 <= j < i ==> !dc_at(s, j),
    ensures
        first_dc(s) == Some(i),
    decreases i,
{
    if i > 0 {
        let d = s.drop_first();
        assert(dc_at(d, i - 1)) by {
            assert(d[i - 1] == s[i]);
            assert(d[i] == s[i + 1]);
        }
        assert forall|j: int| 0 <= j < i - 1 implies !dc_at(d, j) by {
            assert(d[j] == s[j + 1]);
            assert(d[j + 1] == s[j + 2]);
            assert(!dc_at(s, j + 1));
        }
        lemma_first_dc_found(d, i - 1);
        assert(!dc_at(s, 0));
    }
}

proof fn lemma_first_dc_none(s: Seq<char>)
    requires
        forall|j: int| !dc_at(s, j),
    ensures
        first_dc(s) is None,
    decreases s.len(),
{
    if s.len() >= 2 {
        let d = s.drop_first();
        assert(!dc_at(s, 0));
        assert forall|j: int| !dc_at(d, j) by {
            if 0 <= j && j + 1 < d.len() {
                assert(d[j] == s[j + 1]);
                assert(d[j + 1] == s[j + 2]);
                assert(!dc_at(s, j + 1));
            }
        }
        lemma_first_dc_none(d);
    }
}

/// Finds the first adjacent colon pair of `s`, if any.
fn find_first_dc(s: &str) -> (r: Option<usize>)
    ensures
        r matches Some(i) ==> first_dc(s@) == Some(i as int) && i + 1 < s@.len(),
        r is None ==> first_dc(s@) is None,
{
    let n = s.unicode_len();
    let mut i: usize = 0;
    while i + 1 < n
        invariant
            n as nat == s@.len(),
            0 <= i,
            n >= 1 ==> i + 1 <= n,
            n == 0 ==> i == 0,
            forall|j: int| 0 <= j < i ==> !dc_at(s@, j),
        decreases n - i,
    {
        if s.get_char(i) == ':' && s.get_char(i + 1) == ':' {
            proof {
                assert(dc_at(s@, i as int));
                lemma_first_dc_found(s@, i as int);
            }
            return Some(i);
        }
        proof {
            assert(!dc_at(s@, i as int));
        }
        i = i + 1;
    }
    proof {
        assert forall|j: int| !dc_at(s@, j) by {
            if 0 <= j && j + 1 < s@.len() {
                assert(j < i);
            }
        }
        lemma_first_dc_none(s@);
    }
    None
}

/// Reads `::`-compressed group text; `None` on anything else.
fn parse_ipv6_compressed(s: &str) -> (r: Option<Address>)
    ensures
        r matches Some(a) ==> parse_ipv6_compressed_spec(s@) == Some(a@->groups) && a@ is V6
            && a.wf(),
        r is None ==> parse_ipv6_compressed_spec(s@) is None,
{
    let n = s.unicode_len();
    let i = match find_first_dc(s) {
        Some(i) => i,
        None => {
            return None;
        },
    };
    let left = s.substring_char(0, i);
    let right = s.substring_char(i + 2, n);
    let ghost lp = side_groups(s@.take(i as int));
    let ghost rp = side_groups(s@.skip(i as int + 2));
    assert(left@ =~= s@.take(i as int));
    assert(right@ =~= s@.skip(i as int + 2));
    let lparts: Vec<String> = if left.unicode_len() == 0 {
        Vec::new()
    } else {
        split_char(left, ':')
    };
    proof {
        if left@.len() == 0 {
            assert(views_of(lparts@) =~= lp);
        }
    }
    let rparts: Vec<String> = if right.unicode_len() == 0 {
        Vec::new()
    } else {
        split_char(right, ':')
    };
    proof {
        if right@.len() == 0 {
            assert(views_of(rparts@) =~= rp);
        }
    }
    assert(views_of(lparts@) == lp);
    assert(views_of(rparts@) == rp);
    assert(lparts@.len() == lp.len() && rparts@.len() == rp.len());
    if lparts.len() > 7 || rparts.len() > 7 - lparts.len() {
        return None;
    }
    let mut groups: Vec<u16> = Vec::new();
    if !parse_group_list(&lparts, &mut groups) {
        return None;
    }
    assert(groups@ == group_vals(lp));
    let zeros: usize = 8 - lparts.len() - rparts.len();
    let mut z: usize = 0;
    let ghost mid = groups@;
    while z < zeros
        invariant
            0 <= z <= zeros,
            groups@ == mid + zero_groups(z as nat),
        decreases zeros - z,
    {
        groups.push(0);
        proof {
            assert(groups@ =~= mid + zero_groups(z as nat + 1));
        }
        z = z + 1;
    }
    let ghost mid2 = groups@;
    if !parse_group_list(&rparts, &mut groups) {
        return None;
    }
    proof {
        assert(groups@ == mid2 + group_vals(rp));
        assert(groups@ =~= group_vals(lp) + zero_groups((8 - lp.len() - rp.len()) as nat)
            + group_vals(rp));
        assert(groups@.len() == 8) by {
            assert(group_vals(lp).len() == lp.len());
            assert(group_vals(rp).len() == rp.len());
        }
    }
    Some(Address::V6 { groups })
}

/// Reads V6 address text: the full eight-group form, or the
/// `::`-compressed form; `None` on anything else.
pub fn parse_ipv6_text(s: &str) -> (r: Option<Address>)
    ensures
        r is Some ==> parse_ipv6_spec(s@) == Some(r->0@->groups) && r->0@ is V6 && r->0.wf(),
        r is None ==> parse_ipv6_spec(s@) is None,
{
    let parts = split_char(s, ':');
    let ghost sp = split_on(s@, ':');
    if parts.len() == 8 {
        let mut groups: Vec<u16> = Vec::new();
        if parse_group_list(&parts, &mut groups) {
            proof {
                assert(groups@ =~= group_vals(sp));
            }
            return Some(Address::V6 { groups });
        }
        assert(!all_groups_ok(sp));
    }
    parse_ipv6_compressed(s)
}

/// Reads an address in either textual form, dotted-quad first.
pub fn parse_address(s: &str) -> (r: Option<Address>)
    ensures
        r is Some ==> parse_address_spec(s@) == Some(r->0@) && r->0.wf(),
        r is None ==> parse_address_spec(s@) is None,
{
    match parse_ipv4_text(s) {
        Some(a) => Some(a),
        None => {
            match parse_ipv6_text(s) {
                Some(a) => Some(a),
                None => None,
            }
        },
    }
}

// ---------------------------------------------------------------------------
// Round trip: the textual form always parses back to the same address
// ---------------------------------------------------------------------------
/// Splitting off a separator-free head part.
proof fn lemma_split_cons(s: Seq<char>, u: Seq<char>, v: Seq<char>, sep: char)
    requires
        s == u + seq![sep] + v,
        has_none(u, eq_char(sep)),
    ensures
        split_on(s, sep) == seq![u] + split_on(v, sep),
{
    let p = eq_char(sep);
    assert(p(sep));
    assert(s[u.len() as int] == sep) by {
        assert((u + seq![sep] + v)[u.len() as int] == (u + seq![sep])[u.len() as int]);
        assert((u + seq![sep])[u.len() as int] == seq![sep][0]);
    }
    assert forall|j: int| 0 <= j < u.len() implies !p(#[trigger] s[j]) by {
        assert((u + seq![sep] + v)[j] == (u + seq![sep])[j]);
        assert((u + seq![sep])[j] == u[j]);
    }
    lemma_split_when_first(s, p, u.len() as int);
    assert(s.take(u.len() as int) =~= u);
    assert(s.skip(u.len() as int + 1) =~= v);
}

proof fn lemma_dec_text_plain(n: nat)
    ensures
        has_none(dec_text(n), eq_char('.')),
        has_none(dec_text(n), eq_char(':')),
        has_none(dec_text(n), space_pred()),
{
    lemma_dec_text_num(n);
    let t = dec_text(n);
    assert forall|j: int| 0 <= j < t.len() implies !eq_char('.')(#[trigger] t[j]) && !eq_char(
        ':',
    )(t[j]) && !space_pred()(t[j]) by {
        assert(all_dec_digits(t));
        assert(crate::text::is_dec_digit(t[j]));
    }
}

proof fn lemma_hex_text_plain(n: nat)
    ensures
        has_none(hex_text(n), eq_char('.')),
        has_none(hex_text(n), eq_char(':')),
        has_none(hex_text(n), space_pred()),
{
    lemma_hex_text_num(n);
    let t = hex_text(n);
    assert forall|j: int| 0 <= j < t.len() implies !eq_char('.')(#[trigger] t[j]) && !eq_char(
        ':',
    )(t[j]) && !space_pred()(t[j]) by {
        assert(all_hex_digits(t));
        assert(crate::text::is_hex_digit(t[j]));
    }
}

/// Dotted-quad text of a well-formed V4 value parses back to that value, and
/// holds no whitespace.
pub proof fn lemma_v4_text_parses(o: Seq<u8>)
    requires
        o.len() == 4,
    ensures
        parse_ipv4_spec(v4_text(o)) == Some(o),
        has_none(v4_text(o), space_pred()),
{
    let d0 = dec_text(o[0] as nat);
    let d1 = dec_text(o[1] as nat);
    let d2 = dec_text(o[2] as nat);
    let d3 = dec_text(o[3] as nat);
    lemma_dec_text_num(o[0] as nat);
    lemma_dec_text_num(o[1] as nat);
    lemma_dec_text_num(o[2] as nat);
    lemma_dec_text_num(o[3] as nat);
    lemma_dec_text_plain(o[0] as nat);
    lemma_dec_text_plain(o[1] as nat);
    lemma_dec_text_plain(o[2] as nat);
    lemma_dec_text_plain(o[3] as nat);
    let dotp = eq_char('.');
    let s2 = d2 + seq!['.'] + d3;
    let s1 = d1 + seq!['.'] + s2;
    let s0 = d0 + seq!['.'] + s1;
    assert(v4_text(o) =~= s0);
    lemma_split_cons(s0, d0, s1, '.');
    lemma_split_cons(s1, d1, s2, '.');
    lemma_split_cons(s2, d2, d3, '.');
    lemma_split_when_free(d3, dotp);
    let parts = split_on(v4_text(o), '.');
    assert(parts =~= seq![d0, d1, d2, d3]);
    assert(parts.len() == 4);
    assert(v4_part_ok(parts[0]));
    assert(v4_part_ok(parts[1]));
    assert(v4_part_ok(parts[2]));
    assert(v4_part_ok(parts[3]));
    assert forall|i: int| 0 <= i < 4 implies v4_part_ok(#[trigger] parts[i]) by {}
    assert(Seq::new(4, |i: int| dec_num(parts[i]) as u8) =~= o);
    assert(has_none(v4_text(o), space_pred())) by {
        assert(!space_pred()('.'));
        lemma_has_none_concat(d0, seq!['.'], space_pred());
        lemma_has_none_concat(d0 + seq!['.'], d1, space_pred());
        lemma_has_none_concat(d0 + seq!['.'] + d1, seq!['.'], space_pred());
        lemma_has_none_concat(d0 + seq!['.'] + d1 + seq!['.'], d2, space_pred());
        lemma_has_none_concat(d0 + seq!['.'] + d1 + seq!['.'] + d2, seq!['.'], space_pred());
        lemma_has_none_concat(d0 + seq!['.'] + d1 + seq!['.'] + d2 + seq!['.'], d3, space_pred());
    }
}

/// Hex numeral text has no character that a hex-digit-rejecting predicate
/// accepts.
proof fn lemma_hex_text_none(n: nat, p: spec_fn(char) -> bool)
    requires
        forall|c: char| crate::text::is_hex_digit(c) ==> !p(c),
    ensures
        has_none(hex_text(n), p),
{
    lemma_hex_text_num(n);
    let t = hex_text(n);
    assert forall|j: int| 0 <= j < t.len() implies !p(#[trigger] t[j]) by {
        assert(crate::text::is_hex_digit(t[j]));
    }
}

/// No character of the V6 text satisfies `p`, for any predicate that
/// rejects the colon and every hex digit.
#[verifier::rlimit(100)]
#[verifier::spinoff_prover]
proof fn lemma_v6_text_has_none(g: Seq<u16>, p: spec_fn(char) -> bool)
    requires
        g.len() == 8,
        !p(':'),
        forall|c: char| crate::text::is_hex_digit(c) ==> !p(c),
    ensures
        has_none(v6_text(g), p),
{
    let h0 = hex_text(g[0] as nat);
    let h1 = hex_text(g[1] as nat);
    let h2 = hex_text(g[2] as nat);
    let h3 = hex_text(g[3] as nat);
    let h4 = hex_text(g[4] as nat);
    let h5 = hex_text(g[5] as nat);
    let h6 = hex_text(g[6] as nat);
    let h7 = hex_text(g[7] as nat);
    lemma_hex_text_none(g[0] as nat, p);
    lemma_hex_text_none(g[1] as nat, p);
    lemma_hex_text_none(g[2] as nat, p);
    lemma_hex_text_none(g[3] as nat, p);
    lemma_hex_text_none(g[4] as nat, p);
    lemma_hex_text_none(g[5] as nat, p);
    lemma_hex_text_none(g[6] as nat, p);
    lemma_hex_text_none(g[7] as nat, p);
    assert(has_none(seq![':'], p)) by {
        assert(seq![':'][0] == ':');
    }
    let s6 = h6 + seq![':'] + h7;
    let s5 = h5 + seq![':'] + s6;
    let s4 = h4 + seq![':'] + s5;
    let s3 = h3 + seq![':'] + s4;
    let s2 = h2 + seq![':'] + s3;
    let s1 = h1 + seq![':'] + s2;
    let s0 = h0 + seq![':'] + s1;
    lemma_has_none_concat(h6, seq![':'], p);
    lemma_has_none_concat(h6 + seq![':'], h7, p);
    lemma_has_none_concat(h5, seq![':'], p);
    lemma_has_none_concat(h5 + seq![':'], s6, p);
    lemma_has_none_concat(h4, seq![':'], p);
    lemma_has_none_concat(h4 + seq![':'], s5, p);
    lemma_has_none_concat(h3, seq![':'], p);
    lemma_has_none_concat(h3 + seq![':'], s4, p);
    lemma_has_none_concat(h2, seq![':'], p);
    lemma_has_none_concat(h2 + seq![':'], s3, p);
    lemma_has_none_concat(h1, seq![':'], p);
    lemma_has_none_concat(h1 + seq![':'], s2, p);
    lemma_has_none_concat(h0, seq![':'], p);
    lemma_has_none_concat(h0 + seq![':'], s1, p);
    assert(v6_text(g) =~= s0);
}

/// The colon-split of the V6 text is exactly its eight hex groups.
#[verifier::rlimit(100)]
#[verifier::spinoff_prover]
proof fn lemma_v6_text_split(g: Seq<u16>)
    requires
        g.len() == 8,
    ensures
        split_on(v6_text(g), ':') == seq![
            hex_text(g[0] as nat),
            hex_text(g[1] as nat),
            hex_text(g[2] as nat),
            hex_text(g[3] as nat),
            hex_text(g[4] as nat),
            hex_text(g[5] as nat),
            hex_text(g[6] as nat),
            hex_text(g[7] as nat),
        ],
{
    let h0 = hex_text(g[0] as nat);
    let h1 = hex_text(g[1] as nat);
    let h2 = hex_text(g[2] as nat);
    let h3 = hex_text(g[3] as nat);
    let h4 = hex_text(g[4] as nat);
    let h5 = hex_text(g[5] as nat);
    let h6 = hex_text(g[6] as nat);
    let h7 = hex_text(g[7] as nat);
    lemma_hex_text_plain(g[0] as nat);
    lemma_hex_text_plain(g[1] as nat);
    lemma_hex_text_plain(g[2] as nat);
    lemma_hex_text_plain(g[3] as nat);
    lemma_hex_text_plain(g[4] as nat);
    lemma_hex_text_plain(g[5] as nat);
    lemma_hex_text_plain(g[6] as nat);
    lemma_hex_text_plain(g[7] as nat);
    let colp = eq_char(':');
    let s6 = h6 + seq![':'] + h7;
    let s5 = h5 + seq![':'] + s6;
    let s4 = h4 + seq![':'] + s5;
    let s3 = h3 + seq![':'] + s4;
    let s2 = h2 + seq![':'] + s3;
    let s1 = h1 + seq![':'] + s2;
    let s0 = h0 + seq![':'] + s1;
    assert(v6_text(g) =~= s0);
    lemma_split_cons(s0, h0, s1, ':');
    lemma_split_cons(s1, h1, s2, ':');
    lemma_split_cons(s2, h2, s3, ':');
    lemma_split_cons(s3, h3, s4, ':');
    lemma_split_cons(s4, h4, s5, ':');
    lemma_split_cons(s5, h5, s6, ':');
    lemma_split_cons(s6, h6, h7, ':');
    lemma_split_when_free(h7, colp);
    assert(split_on(v6_text(g), ':') =~= seq![h0, h1, h2, h3, h4, h5, h6, h7]);
}

/// Colon-group text of a well-formed V6 value parses back to that value,
/// is not dotted-quad text, and holds no whitespace.
#[verifier::rlimit(100)]
#[verifier::spinoff_prover]
pub proof fn lemma_v6_text_parses(g: Seq<u16>)
    requires
        g.len() == 8,
    ensures
        parse_ipv6_spec(v6_text(g)) == Some(g),
        parse_ipv4_spec(v6_text(g)) is None,
        has_none(v6_text(g), space_pred()),
{
    lemma_v6_text_split(g);
    let parts = split_on(v6_text(g), ':');
    assert(parts.len() == 8);
    assert forall|i: int| 0 <= i < 8 implies v6_group_ok(#[trigger] parts[i]) by {
        lemma_hex_text_num(g[i] as nat);
        assert(parts[i] == hex_text(g[i] as nat));
    }
    assert(group_vals(parts) =~= g) by {
        assert(group_vals(parts).len() == parts.len());
        assert forall|i: int| 0 <= i < 8 implies group_vals(parts)[i] == g[i] by {
            lemma_hex_text_num(g[i] as nat);
            assert(parts[i] == hex_text(g[i] as nat));
        }
    }
    let np = eq_char('.');
    lemma_v6_text_has_none(g, np);
    lemma_split_when_free(v6_text(g), np);
    assert(split_on(v6_text(g), '.').len() == 1);
    lemma_v6_text_has_none(g, space_pred());
}

/// The persisted textual form of any well-formed address, trimmed as the
/// loader trims it, parses back to exactly that address.
pub proof fn lemma_address_text_round_trip(a: AddressView)
    requires
        a.wf(),
    ensures
        parse_address_spec(trim_spec(addr_text(a))) == Some(a),
{
    match a {
        AddressView::V4 { octets } => {
            lemma_v4_text_parses(octets);
            lemma_trim_id(v4_text(octets));
        },
        AddressView::V6 { groups } => {
            lemma_v6_text_parses(groups);
            lemma_trim_id(v6_text(groups));
        },
    }
}

} // verus!
