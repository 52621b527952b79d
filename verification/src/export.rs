//! Preparation of the results of a scan for display and export: the order
//! of the hosts, their text form, and the comma-separated rendering.

use vstd::prelude::*;
use crate::collector::{
    distinct_addresses, targets_view, text_view, ResponseSummary, TargetDetails, TargetView,
};
use crate::options::ScanOptions;
use crate::tabular::{csv_text, table_view, write_rows};
use crate::text::{decimal_text, push_decimal};
use crate::text::{format_ipv4, format_mac, ipv4_text, mac_text};

verus! {

/// A sorted list with one more host: the host goes in front of the first
/// one whose address is not lower than its own.
pub open spec fn insert_sorted(sorted: Seq<TargetView>, item: TargetView) -> Seq<TargetView>
    decreases sorted.len(),
{
    if sorted.len() == 0 || item.ipv4 <= sorted[0].ipv4 {
        seq![item] + sorted
    } else {
        seq![sorted[0]] + insert_sorted(sorted.drop_first(), item)
    }
}

/// The hosts by ascending address. Hosts with the same address keep the
/// order in which they stood.
pub open spec fn sorted_by_ipv4(targets: Seq<TargetView>) -> Seq<TargetView>
    decreases targets.len(),
{
    if targets.len() == 0 {
        Seq::<TargetView>::empty()
    } else {
        insert_sorted(sorted_by_ipv4(targets.drop_first()), targets[0])
    }
}

/// True when the addresses never go down along the list.
pub open spec fn ascending(targets: Seq<TargetView>) -> bool {
    forall|first: int, second: int|
        0 <= first < second < targets.len() ==> (#[trigger] targets[first]).ipv4 <= (
        #[trigger] targets[second]).ipv4
}

/// Inserting in order is inserting at the first position whose host has an
/// address that is not lower.
proof fn lemma_insert_position(sorted: Seq<TargetView>, item: TargetView, at: int)
    requires
        0 <= at <= sorted.len(),
        forall|k: int| 0 <= k < at ==> (#[trigger] sorted[k]).ipv4 < item.ipv4,
        at < sorted.len() ==> item.ipv4 <= sorted[at].ipv4,
    ensures
        insert_sorted(sorted, item) == sorted.insert(at, item),
    decreases sorted.len(),
{
    if sorted.len() == 0 {
        assert(seq![item] + sorted =~= sorted.insert(at, item));
    } else if at == 0 {
        assert(seq![item] + sorted =~= sorted.insert(at, item));
    } else {
        assert(sorted[0].ipv4 < item.ipv4);
        let rest = sorted.drop_first();
        assert forall|k: int| 0 <= k < at - 1 implies (#[trigger] rest[k]).ipv4 < item.ipv4 by {
            assert(rest[k] == sorted[k + 1]);
        }
        lemma_insert_position(rest, item, at - 1);
        assert(seq![sorted[0]] + rest.insert(at - 1, item) =~= sorted.insert(at, item));
    }
}

/// Puts the hosts in ascending order of their addresses.
pub fn sort_by_ipv4(targets: Vec<TargetDetails>) -> (sorted: Vec<TargetDetails>)
    ensures
        targets_view(sorted@) == sorted_by_ipv4(targets_view(targets@)),
{
    let ghost all = targets_view(targets@);
    let mut pending = targets;
    let mut sorted: Vec<TargetDetails> = Vec::new();
    assert(all.subrange(all.len() as int, all.len() as int) =~= Seq::<TargetView>::empty());
    assert(targets_view(sorted@) =~= Seq::<TargetView>::empty());
    assert(targets_view(pending@) =~= all.subrange(0, pending@.len() as int));
    while pending.len() > 0
        invariant
            pending@.len() <= all.len(),
            targets_view(pending@) == all.subrange(0, pending@.len() as int),
            targets_view(sorted@) == sorted_by_ipv4(
                all.subrange(pending@.len() as int, all.len() as int),
            ),
        decreases pending@.len(),
    {
        let ghost before = pending@;
        let ghost done = targets_view(sorted@);
        let item = match pending.pop() {
            Some(last) => last,
            None => vstd::pervasive::unreached(),
        };
        let ghost left = pending@.len() as int;
        proof {
            assert(targets_view(before)[left] == item@);
            assert(all[left] == item@);
            let tail = all.subrange(left, all.len() as int);
            assert(tail.drop_first() =~= all.subrange(left + 1, all.len() as int));
            assert(tail[0] == item@);
            assert(targets_view(pending@) =~= all.subrange(0, left));
        }
        let mut at: usize = 0;
        while at < sorted.len() && sorted[at].ipv4 < item.ipv4
            invariant
                at <= sorted@.len(),
                done == targets_view(sorted@),
                forall|k: int| 0 <= k < at ==> (#[trigger] done[k]).ipv4 < item.ipv4,
            decreases sorted@.len() - at,
        {
            assert(done[at as int] == sorted@[at as int]@);
            at = at + 1;
        }
        proof {
            if at < sorted@.len() {
                assert(done[at as int] == sorted@[at as int]@);
            }
            lemma_insert_position(done, item@, at as int);
        }
        sorted.insert(at, item);
        assert(targets_view(sorted@) =~= done.insert(at as int, item@));
    }
    assert(all.subrange(0, all.len() as int) =~= all);
    sorted
}

/// One host with every field as text, ready for export.
#[derive(Clone, Debug)]
pub struct SerializableResultItem {
    pub ipv4: String,
    pub mac: String,
    pub hostname: String,
    pub vendor: String,
}

/// An exported host as contracts see it.
pub struct ResultItemView {
    pub ipv4: Seq<char>,
    pub mac: Seq<char>,
    pub hostname: Seq<char>,
    pub vendor: Seq<char>,
}

impl View for SerializableResultItem {
    type V = ResultItemView;

    open spec fn view(&self) -> ResultItemView {
        ResultItemView {
            ipv4: self.ipv4@,
            mac: self.mac@,
            hostname: self.hostname@,
            vendor: self.vendor@,
        }
    }
}

/// The counters of a scan and its hosts, ready for export.
#[derive(Clone, Debug)]
pub struct SerializableGlobalResult {
    pub packet_count: usize,
    pub arp_count: usize,
    pub duration_ms: u128,
    pub results: Vec<SerializableResultItem>,
}

/// The exported hosts of a list as contracts see them.
pub open spec fn items_view(items: Seq<SerializableResultItem>) -> Seq<ResultItemView> {
    items.map_values(|item: SerializableResultItem| item@)
}

/// A text that may be missing, with the empty text in its place.
pub open spec fn text_or_empty(text: Option<Seq<char>>) -> Seq<char> {
    match text {
        Some(present) => present,
        None => Seq::<char>::empty(),
    }
}

/// The text form of a host: its address in dotted decimal, its hardware
/// address in hexadecimal, and its names, empty where it has none.
pub open spec fn exported(target: TargetView) -> ResultItemView {
    ResultItemView {
        ipv4: ipv4_text(target.ipv4),
        mac: mac_text(target.mac),
        hostname: text_or_empty(target.hostname),
        vendor: text_or_empty(target.vendor),
    }
}

fn clone_or_empty(text: &Option<String>) -> (copy: String)
    ensures
        copy@ == text_or_empty(text_view(*text)),
{
    match text {
        Some(present) => present.clone(),
        None => String::new(),
    }
}

/// Turns the outcome of a scan into the structure that is exported: the
/// counters as they are, and each host as text, in the order given.
pub fn get_serializable_result(
    response_summary: ResponseSummary,
    target_details: Vec<TargetDetails>,
) -> (result: SerializableGlobalResult)
    ensures
        result.packet_count == response_summary.packet_count,
        result.arp_count == response_summary.arp_count,
        result.duration_ms == response_summary.duration_ms,
        items_view(result.results@) == targets_view(target_details@).map_values(
            |target: TargetView| exported(target),
        ),
{
    let ghost wanted = targets_view(target_details@).map_values(
        |target: TargetView| exported(target),
    );
    let mut results: Vec<SerializableResultItem> = Vec::new();
    let mut at: usize = 0;
    while at < target_details.len()
        invariant
            at <= target_details@.len(),
            wanted == targets_view(target_details@).map_values(
                |target: TargetView| exported(target),
            ),
            results@.len() == at,
            forall|k: int| 0 <= k < at ==> (#[trigger] results@[k])@ == wanted[k],
        decreases target_details@.len() - at,
    {
        let detail = &target_details[at];
        let item = SerializableResultItem {
            ipv4: format_ipv4(detail.ipv4),
            mac: format_mac(detail.mac),
            hostname: clone_or_empty(&detail.hostname),
            vendor: clone_or_empty(&detail.vendor),
        };
        assert(item@ == wanted[at as int]);
        results.push(item);
        at = at + 1;
    }
    assert(items_view(results@) =~= wanted);
    SerializableGlobalResult {
        packet_count: response_summary.packet_count,
        arp_count: response_summary.arp_count,
        duration_ms: response_summary.duration_ms,
        results,
    }
}

/// The fields of an exported host, in the order of the columns.
pub open spec fn row_of(item: ResultItemView) -> Seq<Seq<char>> {
    seq![item.ipv4, item.mac, item.hostname, item.vendor]
}

/// The names of the columns.
pub open spec fn header_row() -> Seq<Seq<char>> {
    seq!["ipv4"@, "mac"@, "hostname"@, "vendor"@]
}

/// The table that is written for a list of hosts: the names of the columns
/// and one row for each host; nothing at all for an empty list.
pub open spec fn csv_table(items: Seq<ResultItemView>) -> Seq<Seq<Seq<char>>> {
    if items.len() == 0 {
        Seq::<Seq<Seq<char>>>::empty()
    } else {
        seq![header_row()] + items.map_values(|item: ResultItemView| row_of(item))
    }
}

/// Lays the exported hosts out as rows of fields under a header row.
pub fn csv_rows_of(items: &Vec<SerializableResultItem>) -> (rows: Vec<Vec<String>>)
    ensures
        table_view(rows@) == csv_table(items_view(items@)),
{
    let ghost wanted = csv_table(items_view(items@));
    let mut rows: Vec<Vec<String>> = Vec::new();
    if items.len() == 0 {
        assert(table_view(rows@) =~= wanted);
        return rows;
    }
    let mut header: Vec<String> = Vec::new();
    header.push("ipv4".to_owned());
    header.push("mac".to_owned());
    header.push("hostname".to_owned());
    header.push("vendor".to_owned());
    assert(header@.map_values(|field: String| field@) =~= header_row());
    rows.push(header);
    let mut at: usize = 0;
    while at < items.len()
        invariant
            at <= items@.len(),
            items@.len() > 0,
            wanted == csv_table(items_view(items@)),
            rows@.len() == at + 1,
            forall|k: int| 0 <= k < rows@.len() ==> (#[trigger] rows@[k])@.map_values(
                |field: String| field@) == wanted[k],
        decreases items@.len() - at,
    {
        let item = &items[at];
        let mut row: Vec<String> = Vec::new();
        row.push(item.ipv4.clone());
        row.push(item.mac.clone());
        row.push(item.hostname.clone());
        row.push(item.vendor.clone());
        assert(row@.map_values(|field: String| field@) =~= row_of(item@));
        assert(wanted[at + 1] == row_of(items_view(items@)[at as int]));
        rows.push(row);
        at = at + 1;
    }
    assert(table_view(rows@) =~= wanted);
    rows
}

/// The text of the comma-separated export: the hosts by ascending address,
/// each as text, under a header row. `None` stands for an error of the
/// writer.
pub open spec fn csv_export(targets: Seq<TargetView>) -> Option<Seq<char>> {
    csv_text(
        csv_table(sorted_by_ipv4(targets).map_values(|target: TargetView| exported(target))),
    )
}

/// Exports the hosts of a scan as comma-separated text, by ascending
/// address. The counters are not part of this rendering. Gives `None` when
/// the writer reports an error.
pub fn export_to_csv(response_summary: ResponseSummary, target_details: Vec<TargetDetails>) -> (text:
    Option<String>)
    ensures
        text_view(text) == csv_export(targets_view(target_details@)),
{
    let sorted = sort_by_ipv4(target_details);
    let global_result = get_serializable_result(response_summary, sorted);
    let rows = csv_rows_of(&global_result.results);
    write_rows(&rows)
}

/// Narrowest width of the columns that hold names.
pub const MIN_NAME_WIDTH: usize = 15;

/// The number of characters of a name, zero where there is none.
pub open spec fn name_len(name: Option<Seq<char>>) -> nat {
    match name {
        Some(present) => present.len(),
        None => 0,
    }
}

/// True when `width` is the width of a column that holds `names`: fifteen
/// characters, or the length of the longest name if that is more.
pub open spec fn is_column_width(names: Seq<Option<Seq<char>>>, width: nat) -> bool {
    &&& width >= MIN_NAME_WIDTH
    &&& forall|k: int| 0 <= k < names.len() ==> name_len(#[trigger] names[k]) <= width
    &&& width == MIN_NAME_WIDTH || exists|k: int|
        0 <= k < names.len() && name_len(#[trigger] names[k]) == width
}

fn length_of(name: &Option<String>) -> (length: usize)
    ensures
        length == name_len(text_view(*name)),
{
    match name {
        Some(present) => present.as_str().unicode_len(),
        None => 0,
    }
}

/// The widths of the hostname column and of the vendor column of the table
/// that shows `targets`, counted in characters.
pub fn column_widths(targets: &Vec<TargetDetails>) -> (widths: (usize, usize))
    ensures
        is_column_width(
            targets_view(targets@).map_values(|target: TargetView| target.hostname),
            widths.0 as nat,
        ),
        is_column_width(
            targets_view(targets@).map_values(|target: TargetView| target.vendor),
            widths.1 as nat,
        ),
{
    let ghost hostnames = targets_view(targets@).map_values(|target: TargetView| target.hostname);
    let ghost vendors = targets_view(targets@).map_values(|target: TargetView| target.vendor);
    let mut hostname_width: usize = MIN_NAME_WIDTH;
    let mut vendor_width: usize = MIN_NAME_WIDTH;
    let mut at: usize = 0;
    while at < targets.len()
        invariant
            at <= targets@.len(),
            hostnames == targets_view(targets@).map_values(|target: TargetView| target.hostname),
            vendors == targets_view(targets@).map_values(|target: TargetView| target.vendor),
            is_column_width(hostnames.subrange(0, at as int), hostname_width as nat),
            is_column_width(vendors.subrange(0, at as int), vendor_width as nat),
        decreases targets@.len() - at,
    {
        let ghost seen_hostnames = hostnames.subrange(0, at as int);
        let ghost seen_vendors = vendors.subrange(0, at as int);
        let ghost old_hostname_width = hostname_width;
        let ghost old_vendor_width = vendor_width;
        let hostname_len = length_of(&targets[at].hostname);
        let vendor_len = length_of(&targets[at].vendor);
        if hostname_len > hostname_width {
            hostname_width = hostname_len;
        }
        if vendor_len > vendor_width {
            vendor_width = vendor_len;
        }
        proof {
            let more_hostnames = hostnames.subrange(0, at + 1);
            let more_vendors = vendors.subrange(0, at + 1);
            assert(more_hostnames[at as int] == text_view(targets@[at as int].hostname));
            assert(more_vendors[at as int] == text_view(targets@[at as int].vendor));
            assert forall|k: int| 0 <= k < at implies #[trigger] more_hostnames[k]
                == seen_hostnames[k] by {}
            assert forall|k: int| 0 <= k < at implies #[trigger] more_vendors[k]
                == seen_vendors[k] by {}
            if hostname_width != MIN_NAME_WIDTH {
                if hostname_len > old_hostname_width {
                    assert(name_len(more_hostnames[at as int]) == hostname_width);
                } else {
                    let k = choose|k: int|
                        0 <= k < seen_hostnames.len() && name_len(#[trigger] seen_hostnames[k])
                            == old_hostname_width;
                    assert(name_len(more_hostnames[k]) == hostname_width);
                }
            }
            if vendor_width != MIN_NAME_WIDTH {
                if vendor_len > old_vendor_width {
                    assert(name_len(more_vendors[at as int]) == vendor_width);
                } else {
                    let k = choose|k: int|
                        0 <= k < seen_vendors.len() && name_len(#[trigger] seen_vendors[k])
                            == old_vendor_width;
                    assert(name_len(more_vendors[k]) == vendor_width);
                }
            }
        }
        at = at + 1;
    }
    assert(hostnames.subrange(0, targets@.len() as int) =~= hostnames);
    assert(vendors.subrange(0, targets@.len() as int) =~= vendors);
    (hostname_width, vendor_width)
}

/// What the hostname column shows for a host: its name, or a note that
/// lookups are switched off, or nothing when the lookup found no name.
pub open spec fn hostname_cell(hostname: Option<Seq<char>>, resolve_hostname: bool) -> Seq<char> {
    match hostname {
        Some(name) => name,
        None => if resolve_hostname {
            Seq::<char>::empty()
        } else {
            "(disabled)"@
        },
    }
}

/// The text of the hostname column for a host.
pub fn hostname_label(detail: &TargetDetails, options: &ScanOptions) -> (label: String)
    ensures
        label@ == hostname_cell(text_view(detail.hostname), options.resolve_hostname),
{
    match &detail.hostname {
        Some(name) => name.clone(),
        None => if options.resolve_hostname {
            String::new()
        } else {
            "(disabled)".to_owned()
        },
    }
}

/// Most networks that are listed by name before a scan.
pub const LISTED_NETWORKS: usize = 5;

/// The first `count` names, with a comma and a space between them.
pub open spec fn joined(names: Seq<Seq<char>>, count: nat) -> Seq<char>
    decreases count,
{
    if count == 0 {
        Seq::<char>::empty()
    } else if count == 1 {
        names[0]
    } else {
        joined(names, (count - 1) as nat) + ", "@ + names[count - 1]
    }
}

/// The line that names the networks of a scan: the first five, and behind
/// them the number of those that were left out, if any.
pub open spec fn network_list(names: Seq<Seq<char>>) -> Seq<char> {
    if names.len() <= LISTED_NETWORKS {
        joined(names, names.len())
    } else {
        joined(names, LISTED_NETWORKS as nat) + " ("@ + decimal_text(
            (names.len() - LISTED_NETWORKS) as nat,
        ) + " more)"@
    }
}

/// Writes the line that names the networks of a scan.
pub fn describe_networks(names: &Vec<String>) -> (line: String)
    ensures
        line@ == network_list(names@.map_values(|name: String| name@)),
{
    let ghost texts = names@.map_values(|name: String| name@);
    let shown: usize = if names.len() <= LISTED_NETWORKS {
        names.len()
    } else {
        LISTED_NETWORKS
    };
    let mut line = String::new();
    let mut at: usize = 0;
    while at < shown
        invariant
            at <= shown <= names@.len(),
            texts == names@.map_values(|name: String| name@),
            line@ == joined(texts, at as nat),
        decreases shown - at,
    {
        if at > 0 {
            line.push_str(", ");
        }
        line.push_str(names[at].as_str());
        assert(texts[at as int] == names@[at as int]@);
        assert(line@ =~= joined(texts, (at + 1) as nat));
        at = at + 1;
    }
    if names.len() > LISTED_NETWORKS {
        line.push_str(" (");
        push_decimal(&mut line, (names.len() - LISTED_NETWORKS) as u64);
        line.push_str(" more)");
    }
    line
}

/// Inserting in order adds the host and nothing else.
pub proof fn lemma_insert_sorted_content(sorted: Seq<TargetView>, item: TargetView)
    ensures
        insert_sorted(sorted, item).len() == sorted.len() + 1,
        insert_sorted(sorted, item).to_multiset() == sorted.to_multiset().insert(item),
    decreases sorted.len(),
{
    broadcast use vstd::seq_lib::group_to_multiset_ensures;

    if sorted.len() == 0 || item.ipv4 <= sorted[0].ipv4 {
        assert(seq![item] + sorted =~= sorted.insert(0, item));
    } else {
        let rest = sorted.drop_first();
        lemma_insert_sorted_content(rest, item);
        let longer = insert_sorted(rest, item);
        assert(seq![sorted[0]] + longer =~= longer.insert(0, sorted[0]));
        assert(sorted =~= rest.insert(0, sorted[0]));
        assert(insert_sorted(sorted, item).to_multiset() =~= sorted.to_multiset().insert(item));
    }
}

/// Inserting in order keeps an ascending list ascending.
pub proof fn lemma_insert_sorted_ascending(sorted: Seq<TargetView>, item: TargetView)
    requires
        ascending(sorted),
    ensures
        ascending(insert_sorted(sorted, item)),
    decreases sorted.len(),
{
    let result = insert_sorted(sorted, item);
    if sorted.len() == 0 || item.ipv4 <= sorted[0].ipv4 {
        assert forall|first: int, second: int| 0 <= first < second < result.len() implies (
        #[trigger] result[first]).ipv4 <= (#[trigger] result[second]).ipv4 by {
            if first > 0 {
                assert(result[first] == sorted[first - 1]);
            }
            assert(result[second] == sorted[second - 1]);
            if first == 0 && second > 1 {
                assert(sorted[0].ipv4 <= sorted[second - 1].ipv4);
            }
        }
    } else {
        let rest = sorted.drop_first();
        assert forall|first: int, second: int| 0 <= first < second < rest.len() implies (
        #[trigger] rest[first]).ipv4 <= (#[trigger] rest[second]).ipv4 by {
            assert(rest[first] == sorted[first + 1]);
            assert(rest[second] == sorted[second + 1]);
        }
        lemma_insert_sorted_ascending(rest, item);
        lemma_insert_sorted_content(rest, item);
        let longer = insert_sorted(rest, item);
        assert forall|first: int, second: int| 0 <= first < second < result.len() implies (
        #[trigger] result[first]).ipv4 <= (#[trigger] result[second]).ipv4 by {
            assert(result[second] == longer[second - 1]);
            if first > 0 {
                assert(result[first] == longer[first - 1]);
            } else {
                let later = longer[second - 1];
                vstd::seq_lib::to_multiset_contains(longer, later);
                vstd::seq_lib::to_multiset_contains(rest, later);
                assert(longer.contains(later));
                if later != item {
                    assert(rest.to_multiset().insert(item).count(later) == rest.to_multiset().count(
                        later,
                    ));
                    assert(rest.contains(later));
                    let k = choose|k: int| 0 <= k < rest.len() && rest[k] == later;
                    assert(sorted[k + 1] == later);
                    assert(sorted[0].ipv4 <= sorted[k + 1].ipv4);
                }
            }
        }
    }
}

/// Sorting gives an ascending list of the same hosts, each as often as
/// before.
pub proof fn lemma_sorted_is_ascending_permutation(targets: Seq<TargetView>)
    ensures
        ascending(sorted_by_ipv4(targets)),
        sorted_by_ipv4(targets).len() == targets.len(),
        sorted_by_ipv4(targets).to_multiset() == targets.to_multiset(),
    decreases targets.len(),
{
    broadcast use vstd::seq_lib::group_to_multiset_ensures;

    if targets.len() == 0 {
        assert(sorted_by_ipv4(targets).to_multiset() =~= targets.to_multiset());
    } else {
        let rest = targets.drop_first();
        lemma_sorted_is_ascending_permutation(rest);
        lemma_insert_sorted_ascending(sorted_by_ipv4(rest), targets[0]);
        lemma_insert_sorted_content(sorted_by_ipv4(rest), targets[0]);
        assert(targets =~= rest.insert(0, targets[0]));
        assert(sorted_by_ipv4(targets).to_multiset() =~= targets.to_multiset());
    }
}

/// A rearrangement of hosts with different addresses has different
/// addresses too.
pub proof fn lemma_distinct_addresses_rearranged(first: Seq<TargetView>, second: Seq<TargetView>)
    requires
        distinct_addresses(first),
        first.to_multiset() == second.to_multiset(),
    ensures
        distinct_addresses(second),
{
    assert(first.no_duplicates());
    first.lemma_multiset_has_no_duplicates();
    second.lemma_multiset_has_no_duplicates_conv();
    assert forall|i: int, j: int| 0 <= i < j < second.len() implies (#[trigger] second[i]).ipv4 != (
    #[trigger] second[j]).ipv4 by {
        vstd::seq_lib::to_multiset_contains(second, second[i]);
        vstd::seq_lib::to_multiset_contains(second, second[j]);
        vstd::seq_lib::to_multiset_contains(first, second[i]);
        vstd::seq_lib::to_multiset_contains(first, second[j]);
        assert(second.contains(second[i]));
        assert(second.contains(second[j]));
        let p = choose|p: int| 0 <= p < first.len() && first[p] == second[i];
        let q = choose|q: int| 0 <= q < first.len() && first[q] == second[j];
        assert(second[i] != second[j]);
        if p < q {
            assert(first[p].ipv4 != first[q].ipv4);
        } else {
            assert(first[q].ipv4 != first[p].ipv4);
        }
    }
}

/// Two ascending lists of the same hosts are the same list, where the
/// hosts have different addresses.
pub proof fn lemma_ascending_is_unique(first: Seq<TargetView>, second: Seq<TargetView>)
    requires
        ascending(first),
        ascending(second),
        distinct_addresses(first),
        first.to_multiset() == second.to_multiset(),
    ensures
        first == second,
    decreases first.len(),
{
    broadcast use vstd::seq_lib::group_to_multiset_ensures;

    assert(first.len() == second.len()) by {
        vstd::seq_lib::to_multiset_len(first);
        vstd::seq_lib::to_multiset_len(second);
    }
    if first.len() > 0 {
        lemma_distinct_addresses_rearranged(first, second);
        vstd::seq_lib::to_multiset_contains(second, first[0]);
        vstd::seq_lib::to_multiset_contains(first, first[0]);
        vstd::seq_lib::to_multiset_contains(first, second[0]);
        vstd::seq_lib::to_multiset_contains(second, second[0]);
        assert(first.contains(first[0]));
        assert(second.contains(second[0]));
        let k = choose|k: int| 0 <= k < second.len() && second[k] == first[0];
        let m = choose|m: int| 0 <= m < first.len() && first[m] == second[0];
        if k > 0 {
            assert(second[0].ipv4 <= second[k].ipv4);
        }
        if m > 0 {
            assert(first[0].ipv4 <= first[m].ipv4);
            assert(first[0].ipv4 != first[m].ipv4);
        }
        assert(m == 0);
        assert(first[0] == second[0]);
        let first_rest = first.drop_first();
        let second_rest = second.drop_first();
        assert(first_rest =~= first.remove(0));
        assert(second_rest =~= second.remove(0));
        vstd::seq_lib::to_multiset_remove(first, 0);
        vstd::seq_lib::to_multiset_remove(second, 0);
        assert forall|i: int, j: int| 0 <= i < j < first_rest.len() implies (
        #[trigger] first_rest[i]).ipv4 <= (#[trigger] first_rest[j]).ipv4 && first_rest[i].ipv4
            != first_rest[j].ipv4 by {
            assert(first_rest[i] == first[i + 1]);
            assert(first_rest[j] == first[j + 1]);
        }
        assert forall|i: int, j: int| 0 <= i < j < second_rest.len() implies (
        #[trigger] second_rest[i]).ipv4 <= (#[trigger] second_rest[j]).ipv4 by {
            assert(second_rest[i] == second[i + 1]);
            assert(second_rest[j] == second[j + 1]);
        }
        lemma_ascending_is_unique(first_rest, second_rest);
        assert(first =~= seq![first[0]] + first_rest);
        assert(second =~= seq![second[0]] + second_rest);
    }
}

/// The export does not depend on the order in which the hosts were found:
/// two lists of the same hosts with different addresses are exported as the
/// same text.
pub proof fn lemma_export_ignores_order(first: Seq<TargetView>, second: Seq<TargetView>)
    requires
        distinct_addresses(first),
        first.to_multiset() == second.to_multiset(),
    ensures
        sorted_by_ipv4(first) == sorted_by_ipv4(second),
        csv_export(first) == csv_export(second),
{
    lemma_sorted_is_ascending_permutation(first);
    lemma_sorted_is_ascending_permutation(second);
    lemma_distinct_addresses_rearranged(first, sorted_by_ipv4(first));
    lemma_ascending_is_unique(sorted_by_ipv4(first), sorted_by_ipv4(second));
}

} // verus!
