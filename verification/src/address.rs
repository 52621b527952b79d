//! The address space of a scan: network blocks, their sizes, and the order
//! in which their addresses are visited.

use vstd::prelude::*;

verus! {

/// A network block: a base address and the length of its prefix in bits.
#[allow(inconsistent_fields)]
#[derive(Clone, Copy, Debug, PartialEq, Eq, Structural)]
pub enum AddressRange {
    V4 { address: u32, prefix: u8 },
    V6 { address: u128, prefix: u8 },
}

/// Conditions that end a scan before anything is sent.
#[derive(Clone, Copy, Debug, PartialEq, Eq, Structural)]
pub enum ScanError {
    /// An IPv6 block was given; ARP only resolves IPv4 addresses.
    Ipv6NotSupported,
    /// The interface has no IPv4 address and none was forced.
    NoSourceAddress,
}

impl AddressRange {
    /// The prefix is no longer than an address of the family.
    pub open spec fn well_formed(self) -> bool {
        match self {
            AddressRange::V4 { address, prefix } => prefix <= 32,
            AddressRange::V6 { address, prefix } => prefix <= 128,
        }
    }

    /// True for an IPv4 block.
    pub open spec fn is_v4(self) -> bool {
        self is V4
    }

    /// An IPv4 block, or `None` when the prefix is longer than 32 bits.
    pub fn v4(address: u32, prefix: u8) -> (range: Option<AddressRange>)
        ensures
            range == if prefix <= 32 {
                Some(AddressRange::V4 { address, prefix })
            } else {
                None
            },
            range.is_some() ==> range.unwrap().well_formed(),
    {
        if prefix <= 32 {
            Some(AddressRange::V4 { address, prefix })
        } else {
            None
        }
    }

    /// An IPv6 block, or `None` when the prefix is longer than 128 bits.
    pub fn v6(address: u128, prefix: u8) -> (range: Option<AddressRange>)
        ensures
            range == if prefix <= 128 {
                Some(AddressRange::V6 { address, prefix })
            } else {
                None
            },
            range.is_some() ==> range.unwrap().well_formed(),
    {
        if prefix <= 128 {
            Some(AddressRange::V6 { address, prefix })
        } else {
            None
        }
    }
}

/// The network mask of an IPv4 prefix: its leading `prefix` bits are set.
pub open spec fn netmask(prefix: u8) -> u32 {
    if prefix == 0 {
        0u32
    } else {
        0xffff_ffffu32 << ((32 - prefix) as u32)
    }
}

/// The lowest address of the block that `address` lies in.
pub open spec fn network_address(address: u32, prefix: u8) -> u32 {
    address & netmask(prefix)
}

/// The number of addresses in an IPv4 block.
pub open spec fn host_count(prefix: u8) -> u64 {
    1u64 << ((32 - prefix) as u64)
}

/// The size that is announced for an IPv4 block: the number of its
/// addresses, but for the block of all addresses, whose count does not fit
/// in 32 bits and is announced as one less.
pub open spec fn announced_size(prefix: u8) -> u32 {
    if prefix == 0 {
        0xffff_ffffu32
    } else {
        1u32 << ((32 - prefix) as u32)
    }
}

/// Calls `ipnetwork::Ipv4Network::size` on the block that
/// `ipnetwork::Ipv4Network::new` makes of the arguments. `new` fails exactly
/// for a prefix longer than 32 bits; `size` gives one shifted left by the
/// number of host bits, and `u32::MAX` for a prefix of zero.
#[verifier::external_body]
fn ipv4_size(address: u32, prefix: u8) -> (size: Option<u32>)
    ensures
        size == if prefix <= 32 {
            Some(announced_size(prefix))
        } else {
            None
        },
{
    match ipnetwork::Ipv4Network::new(address.into(), prefix) {
        Ok(network) => Some(network.size()),
        Err(_) => None,
    }
}

/// Calls `ipnetwork::Ipv4Network::network` on the block that
/// `ipnetwork::Ipv4Network::new` makes of the arguments. `new` fails exactly
/// for a prefix longer than 32 bits; `network` gives the address with its
/// host bits cleared.
#[verifier::external_body]
fn ipv4_network(address: u32, prefix: u8) -> (first: Option<u32>)
    ensures
        first == if prefix <= 32 {
            Some(network_address(address, prefix))
        } else {
            None
        },
{
    match ipnetwork::Ipv4Network::new(address.into(), prefix) {
        Ok(network) => Some(network.network().into()),
        Err(_) => None,
    }
}

/// The sum of the announced sizes of the first `count` blocks, IPv6 blocks
/// counting for nothing.
pub open spec fn total_size(ranges: Seq<AddressRange>, count: nat) -> nat
    decreases count,
{
    if count == 0 {
        0
    } else {
        let last = ranges[count - 1];
        total_size(ranges, (count - 1) as nat) + match last {
            AddressRange::V4 { address, prefix } => announced_size(prefix) as nat,
            AddressRange::V6 { address, prefix } => 0nat,
        }
    }
}

/// True when every block is an IPv4 block.
pub open spec fn all_v4(ranges: Seq<AddressRange>) -> bool {
    forall|index: int| 0 <= index < ranges.len() ==> (#[trigger] ranges[index]).is_v4()
}

/// True when every block is well formed.
pub open spec fn all_well_formed(ranges: Seq<AddressRange>) -> bool {
    forall|index: int| 0 <= index < ranges.len() ==> (#[trigger] ranges[index]).well_formed()
}

/// Adds up the announced sizes of the blocks. An IPv6 block anywhere in the
/// list is an error: ARP has no meaning for it.
pub fn compute_network_size(ranges: &Vec<AddressRange>) -> (size: Result<u128, ScanError>)
    requires
        all_well_formed(ranges@),
    ensures
        match size {
            Ok(total) => all_v4(ranges@) && total == total_size(ranges@, ranges@.len()),
            Err(error) => !all_v4(ranges@) && error == ScanError::Ipv6NotSupported,
        },
{
    let mut total: u128 = 0;
    let mut at: usize = 0;
    while at < ranges.len()
        invariant
            at <= ranges@.len(),
            all_well_formed(ranges@),
            total == total_size(ranges@, at as nat),
            total <= at * 0xffff_ffff,
            forall|index: int| 0 <= index < at ==> (#[trigger] ranges@[index]).is_v4(),
        decreases ranges@.len() - at,
    {
        match ranges[at] {
            AddressRange::V4 { address, prefix } => {
                assert(ranges@[at as int].well_formed());
                match ipv4_size(address, prefix) {
                    Some(size) => {
                        total = total + (size as u128);
                    },
                    None => {},
                }
            },
            AddressRange::V6 { address, prefix } => {
                assert(!ranges@[at as int].is_v4());
                return Err(ScanError::Ipv6NotSupported);
            },
        }
        at = at + 1;
    }
    Ok(total)
}

/// The addresses of a block, lowest first. An IPv6 block has none that a
/// scan could visit.
pub open spec fn addresses_of(range: AddressRange) -> Seq<u32> {
    match range {
        AddressRange::V4 { address, prefix } => Seq::new(
            host_count(prefix) as nat,
            |k: int| (network_address(address, prefix) + k) as u32,
        ),
        AddressRange::V6 { address, prefix } => Seq::<u32>::empty(),
    }
}

/// The addresses of the blocks from position `from` on, block after block.
pub open spec fn addresses_from(ranges: Seq<AddressRange>, from: int) -> Seq<u32>
    decreases ranges.len() - from,
{
    if from < 0 || from >= ranges.len() {
        Seq::<u32>::empty()
    } else {
        addresses_of(ranges[from]) + addresses_from(ranges, from + 1)
    }
}

/// Every address of every block, in the order of the blocks and lowest
/// first within each.
pub open spec fn all_addresses(ranges: Seq<AddressRange>) -> Seq<u32> {
    addresses_from(ranges, 0)
}

/// A run of consecutive addresses.
#[derive(Clone, Copy, Debug)]
struct Span {
    first: u32,
    count: u64,
}

impl Span {
    /// The run is not empty and stays within the address space.
    spec fn well_formed(self) -> bool {
        1 <= self.count && self.first + self.count - 1 <= u32::MAX
    }

    /// The addresses of the run from position `from` on.
    spec fn tail(self, from: u64) -> Seq<u32> {
        Seq::new((self.count - from) as nat, |k: int| (self.first + from + k) as u32)
    }
}

/// The addresses of the runs from position `from` on.
spec fn runs_from(spans: Seq<Span>, from: int) -> Seq<u32>
    decreases spans.len() - from,
{
    if from < 0 || from >= spans.len() {
        Seq::<u32>::empty()
    } else {
        spans[from].tail(0) + runs_from(spans, from + 1)
    }
}

/// A block holds at least one address and does not reach beyond the last
/// address of the space.
proof fn lemma_block_bounds(address: u32, prefix: u8)
    requires
        prefix <= 32,
    ensures
        1 <= host_count(prefix),
        network_address(address, prefix) + host_count(prefix) - 1 <= u32::MAX,
{
    if prefix == 0 {
        assert(1u64 << 32u64 == 0x1_0000_0000u64) by (bit_vector);
        assert(address & 0u32 == 0u32) by (bit_vector);
    } else {
        let bits: u32 = (32 - prefix) as u32;
        let wide: u64 = (32 - prefix) as u64;
        let first: u32 = address & (0xffff_ffffu32 << bits);
        let count: u64 = 1u64 << wide;
        assert(1 <= count && first + count - 1 <= 0xffff_ffff) by (bit_vector)
            requires
                bits < 32,
                wide == bits,
                first == address & (0xffff_ffffu32 << bits),
                count == 1u64 << wide,
        ;
    }
}

/// The run that holds the addresses of an IPv4 block.
fn span_of(address: u32, prefix: u8) -> (span: Span)
    requires
        prefix <= 32,
    ensures
        span.well_formed(),
        span.tail(0) == addresses_of(AddressRange::V4 { address, prefix }),
{
    proof {
        lemma_block_bounds(address, prefix);
    }
    let first: u32 = match ipv4_network(address, prefix) {
        Some(lowest) => lowest,
        None => vstd::pervasive::unreached(),
    };
    let bits: u64 = (32 - prefix) as u64;
    let count: u64 = 1u64 << bits;
    let span = Span { first, count };
    assert(span.tail(0) =~= addresses_of(AddressRange::V4 { address, prefix }));
    span
}

/// Draws an index below `bound` with `rand::random_range` on the range from
/// zero up to and without `bound`, which panics on an empty range. The draw
/// comes from the thread's generator: nothing is claimed of it but that it
/// lies in the range.
#[verifier::external_body]
fn random_below(bound: usize) -> (pick: usize)
    requires
        bound > 0,
    ensures
        pick < bound,
{
    rand::random_range(0..bound)
}

/// Exchanges the items at two positions.
pub fn exchange(items: &mut Vec<u32>, first: usize, second: usize)
    requires
        first < old(items)@.len(),
        second < old(items)@.len(),
    ensures
        final(items)@ == old(items)@.update(first as int, old(items)@[second as int]).update(
            second as int,
            old(items)@[first as int],
        ),
        final(items)@.to_multiset() == old(items)@.to_multiset(),
{
    let one: u32 = items[first];
    let other: u32 = items[second];
    items.set(first, other);
    items.set(second, one);
    proof {
        let before = old(items)@;
        let middle = before.update(first as int, other);
        vstd::seq_lib::to_multiset_update(before, first as int, other);
        vstd::seq_lib::to_multiset_update(middle, second as int, one);
        vstd::seq_lib::to_multiset_contains(before, one);
        vstd::seq_lib::to_multiset_contains(before, other);
        assert(before[first as int] == one);
        assert(before[second as int] == other);
        assert(before.to_multiset().count(one) > 0);
        assert(before.to_multiset().count(other) > 0);
        assert(items@.to_multiset() =~= before.to_multiset());
    }
}

/// Puts the items in a random order: each position from the last down is
/// exchanged with a position drawn at or below it. Whatever is drawn, the
/// items are the same ones afterwards, each as often as before.
pub fn shuffle(items: &mut Vec<u32>)
    ensures
        final(items)@.len() == old(items)@.len(),
        final(items)@.to_multiset() == old(items)@.to_multiset(),
{
    let mut left: usize = items.len();
    while left > 1
        invariant
            left <= items@.len(),
            items@.len() == old(items)@.len(),
            items@.to_multiset() == old(items)@.to_multiset(),
        decreases left,
    {
        let pick: usize = random_below(left);
        exchange(items, left - 1, pick);
        left = left - 1;
    }
}

/// Walks the addresses of a list of IPv4 blocks, one per call.
#[derive(Debug)]
pub struct NetworkIterator {
    spans: Vec<Span>,
    span_index: usize,
    offset: u64,
    shuffled: bool,
    pool: Vec<u32>,
    cursor: usize,
}

impl NetworkIterator {
    /// The addresses still to come, next first.
    pub closed spec fn remaining(&self) -> Seq<u32> {
        if self.shuffled {
            self.pool@.subrange(self.cursor as int, self.pool@.len() as int)
        } else if self.span_index < self.spans@.len() {
            self.spans@[self.span_index as int].tail(self.offset) + runs_from(
                self.spans@,
                self.span_index + 1,
            )
        } else {
            Seq::<u32>::empty()
        }
    }

    /// The position of the walk lies within what is walked.
    pub closed spec fn well_formed(&self) -> bool {
        &&& forall|index: int|
            0 <= index < self.spans@.len() ==> (#[trigger] self.spans@[index]).well_formed()
        &&& self.span_index <= self.spans@.len()
        &&& self.span_index < self.spans@.len() ==> self.offset
            < self.spans@[self.span_index as int].count
        &&& self.cursor <= self.pool@.len()
    }

    /// The next address, or `None` once every address has been given out.
    pub fn next(&mut self) -> (address: Option<u32>)
        requires
            old(self).well_formed(),
        ensures
            final(self).well_formed(),
            old(self).remaining().len() == 0 ==> address.is_none() && final(self).remaining()
                == old(self).remaining(),
            old(self).remaining().len() > 0 ==> address == Some(old(self).remaining()[0])
                && final(self).remaining() == old(self).remaining().drop_first(),
    {
        if self.shuffled {
            if self.cursor < self.pool.len() {
                let address: u32 = self.pool[self.cursor];
                self.cursor = self.cursor + 1;
                assert(self.remaining() =~= old(self).remaining().drop_first());
                Some(address)
            } else {
                None
            }
        } else if self.span_index < self.spans.len() {
            let span: Span = self.spans[self.span_index];
            assert(span.well_formed());
            let address: u32 = ((span.first as u64) + self.offset) as u32;
            assert(span.tail(self.offset)[0] == address);
            if self.offset + 1 < span.count {
                self.offset = self.offset + 1;
                assert(span.tail(self.offset) =~= span.tail(old(self).offset).drop_first());
                assert(self.remaining() =~= old(self).remaining().drop_first());
            } else {
                self.span_index = self.span_index + 1;
                self.offset = 0;
                assert(span.tail(old(self).offset).len() == 1);
                assert(self.remaining() =~= runs_from(self.spans@, old(self).span_index + 1));
                assert(self.remaining() =~= old(self).remaining().drop_first());
            }
            Some(address)
        } else {
            None
        }
    }

    /// Starts a pass over the blocks. In order, the addresses come block
    /// after block, lowest first within each; shuffled, the same addresses
    /// come in an order drawn anew for this pass. An IPv6 block anywhere in
    /// the list is an error.
    pub fn new(ranges: &Vec<AddressRange>, randomize: bool) -> (pass: Result<
        NetworkIterator,
        ScanError,
    >)
        requires
            all_well_formed(ranges@),
        ensures
            match pass {
                Ok(iterator) => {
                    &&& all_v4(ranges@)
                    &&& iterator.well_formed()
                    &&& iterator.remaining().to_multiset() == all_addresses(ranges@).to_multiset()
                    &&& !randomize ==> iterator.remaining() == all_addresses(ranges@)
                },
                Err(error) => !all_v4(ranges@) && error == ScanError::Ipv6NotSupported,
            },
    {
        let mut spans: Vec<Span> = Vec::new();
        let mut at: usize = 0;
        while at < ranges.len()
            invariant
                at <= ranges@.len(),
                all_well_formed(ranges@),
                spans@.len() == at,
                forall|index: int| 0 <= index < at ==> (#[trigger] ranges@[index]).is_v4(),
                forall|index: int| 0 <= index < at ==> (#[trigger] spans@[index]).well_formed(),
                forall|index: int|
                    0 <= index < at ==> (#[trigger] spans@[index]).tail(0) == addresses_of(
                        ranges@[index],
                    ),
            decreases ranges@.len() - at,
        {
            match ranges[at] {
                AddressRange::V4 { address, prefix } => {
                    assert(ranges@[at as int].well_formed());
                    spans.push(span_of(address, prefix));
                },
                AddressRange::V6 { address, prefix } => {
                    assert(!ranges@[at as int].is_v4());
                    return Err(ScanError::Ipv6NotSupported);
                },
            }
            at = at + 1;
        }
        proof {
            lemma_runs_are_addresses(spans@, ranges@, 0);
        }
        let mut iterator = NetworkIterator {
            spans,
            span_index: 0,
            offset: 0,
            shuffled: false,
            pool: Vec::new(),
            cursor: 0,
        };
        assert(iterator.remaining() =~= all_addresses(ranges@));
        if !randomize {
            return Ok(iterator);
        }
        let mut pool: Vec<u32> = Vec::new();
        loop
            invariant
                iterator.well_formed(),
                pool@ + iterator.remaining() == all_addresses(ranges@),
            ensures
                pool@ == all_addresses(ranges@),
            decreases iterator.remaining().len(),
        {
            let ghost before = iterator.remaining();
            let ghost gathered = pool@;
            match iterator.next() {
                Some(address) => {
                    pool.push(address);
                    assert(pool@ + iterator.remaining() =~= gathered + before) by {
                        assert(before =~= seq![before[0]] + before.drop_first());
                    }
                },
                None => {
                    assert(pool@ + iterator.remaining() =~= pool@);
                    break ;
                },
            }
        }
        shuffle(&mut pool);
        iterator.shuffled = true;
        iterator.pool = pool;
        iterator.cursor = 0;
        assert(iterator.remaining() =~= iterator.pool@);
        Ok(iterator)
    }
}

/// The runs that were made of the blocks hold the addresses of the blocks.
proof fn lemma_runs_are_addresses(spans: Seq<Span>, ranges: Seq<AddressRange>, from: int)
    requires
        0 <= from <= spans.len(),
        spans.len() == ranges.len(),
        forall|index: int|
            0 <= index < spans.len() ==> (#[trigger] spans[index]).tail(0) == addresses_of(
                ranges[index],
            ),
    ensures
        runs_from(spans, from) == addresses_from(ranges, from),
    decreases spans.len() - from,
{
    if from < spans.len() {
        lemma_runs_are_addresses(spans, ranges, from + 1);
    }
}

/// True when `address` lies in the block.
pub open spec fn holds(range: AddressRange, address: u32) -> bool {
    addresses_of(range).contains(address)
}

/// True when no address lies in two of the blocks.
pub open spec fn pairwise_disjoint(ranges: Seq<AddressRange>) -> bool {
    forall|first: int, second: int, address: u32|
        0 <= first < second < ranges.len() ==> !(#[trigger] holds(ranges[first], address)
            && #[trigger] holds(ranges[second], address))
}

/// An address lies in an IPv4 block exactly when it has the network address
/// of the block.
pub proof fn lemma_block_membership(address: u32, prefix: u8, candidate: u32)
    requires
        prefix <= 32,
    ensures
        holds(AddressRange::V4 { address, prefix }, candidate) <==> network_address(
            candidate,
            prefix,
        ) == network_address(address, prefix),
{
    let block = addresses_of(AddressRange::V4 { address, prefix });
    let first = network_address(address, prefix);
    let count = host_count(prefix);
    lemma_block_bounds(address, prefix);
    if prefix == 0 {
        assert(1u64 << 32u64 == 0x1_0000_0000u64) by (bit_vector);
        assert(address & 0u32 == 0u32) by (bit_vector);
        assert(candidate & 0u32 == 0u32) by (bit_vector);
        assert(block[candidate as int] == candidate);
    } else {
        let bits: u32 = (32 - prefix) as u32;
        let wide: u64 = (32 - prefix) as u64;
        let mask: u32 = 0xffff_ffffu32 << bits;
        assert((candidate & mask == first) <==> (first <= candidate && candidate - first < count))
            by (bit_vector)
            requires
                bits < 32,
                wide == bits,
                mask == 0xffff_ffffu32 << bits,
                first == address & mask,
                count == 1u64 << wide,
        ;
        if first <= candidate && candidate - first < count {
            assert(block[candidate - first] == candidate);
        }
        if block.contains(candidate) {
            let k = choose|k: int| 0 <= k < block.len() && block[k] == candidate;
            assert(candidate == first + k);
        }
    }
}

/// The addresses of a well-formed block are all different.
pub proof fn lemma_block_has_no_repeats(range: AddressRange)
    requires
        range.well_formed(),
    ensures
        addresses_of(range).no_duplicates(),
{
    match range {
        AddressRange::V4 { address, prefix } => {
            lemma_block_bounds(address, prefix);
        },
        AddressRange::V6 { address, prefix } => {},
    }
}

/// What a pass visits from block `from` on is what lies in one of those
/// blocks.
pub proof fn lemma_addresses_from_membership(ranges: Seq<AddressRange>, from: int, address: u32)
    requires
        0 <= from <= ranges.len(),
    ensures
        addresses_from(ranges, from).contains(address) <==> exists|index: int|
            from <= index < ranges.len() && holds(#[trigger] ranges[index], address),
    decreases ranges.len() - from,
{
    if from < ranges.len() {
        let head = addresses_of(ranges[from]);
        let rest = addresses_from(ranges, from + 1);
        let whole = addresses_from(ranges, from);
        lemma_addresses_from_membership(ranges, from + 1, address);
        if whole.contains(address) {
            let k = choose|k: int| 0 <= k < whole.len() && whole[k] == address;
            if k < head.len() {
                assert(head[k] == address);
                assert(holds(ranges[from], address));
            } else {
                assert(rest[k - head.len()] == address);
                assert(rest.contains(address));
            }
        }
        if holds(ranges[from], address) {
            let k = choose|k: int| 0 <= k < head.len() && head[k] == address;
            assert(whole[k] == address);
        }
        if rest.contains(address) {
            let k = choose|k: int| 0 <= k < rest.len() && rest[k] == address;
            assert(whole[head.len() + k] == address);
        }
    }
}

/// Where no two blocks share an address, no address is visited twice from
/// block `from` on.
pub proof fn lemma_addresses_from_no_repeats(ranges: Seq<AddressRange>, from: int)
    requires
        0 <= from <= ranges.len(),
        all_well_formed(ranges),
        pairwise_disjoint(ranges),
    ensures
        addresses_from(ranges, from).no_duplicates(),
    decreases ranges.len() - from,
{
    if from < ranges.len() {
        let head = addresses_of(ranges[from]);
        let rest = addresses_from(ranges, from + 1);
        lemma_addresses_from_no_repeats(ranges, from + 1);
        assert(ranges[from].well_formed());
        lemma_block_has_no_repeats(ranges[from]);
        assert forall|i: int, j: int| 0 <= i < head.len() && 0 <= j < rest.len() implies head[i]
            != rest[j] by {
            if head[i] == rest[j] {
                let address = head[i];
                assert(holds(ranges[from], address));
                assert(rest.contains(address));
                lemma_addresses_from_membership(ranges, from + 1, address);
                let index = choose|index: int|
                    from + 1 <= index < ranges.len() && holds(#[trigger] ranges[index], address);
                assert(holds(ranges[index], address));
            }
        }
        vstd::seq_lib::lemma_no_dup_in_concat(head, rest);
    }
}

/// A pass visits exactly the addresses that lie in one of the blocks, in
/// order or shuffled; and where no two blocks share an address, it visits
/// each of them once.
pub proof fn lemma_pass_visits_each_address_once(ranges: Seq<AddressRange>, pass: Seq<u32>)
    requires
        all_well_formed(ranges),
        pass.to_multiset() == all_addresses(ranges).to_multiset(),
    ensures
        forall|address: u32|
            pass.contains(address) <==> exists|index: int|
                0 <= index < ranges.len() && holds(#[trigger] ranges[index], address),
        pairwise_disjoint(ranges) ==> pass.no_duplicates(),
{
    let all = all_addresses(ranges);
    assert forall|address: u32|
        pass.contains(address) <==> exists|index: int|
            0 <= index < ranges.len() && holds(#[trigger] ranges[index], address) by {
        vstd::seq_lib::to_multiset_contains(pass, address);
        vstd::seq_lib::to_multiset_contains(all, address);
        lemma_addresses_from_membership(ranges, 0, address);
    }
    if pairwise_disjoint(ranges) {
        lemma_addresses_from_no_repeats(ranges, 0);
        all.lemma_multiset_has_no_duplicates();
        pass.lemma_multiset_has_no_duplicates_conv();
    }
}

} // verus!
