//! Resolution of a hardware address to the name of its manufacturer, by the
//! longest prefix that a table of assignments holds for it.

use vstd::prelude::*;
use crate::options::MacAddress;
use crate::tabular::{csv_rows, read_rows, table_view};

verus! {

/// Shortest prefix that a table accepts, in octets.
pub const MIN_PREFIX_LEN: usize = 3;

/// Longest prefix that a table accepts, in octets: a whole address.
pub const MAX_PREFIX_LEN: usize = 6;

/// One assignment: the leading octets of the addresses it covers, and the
/// name of the manufacturer.
#[derive(Clone, Debug)]
pub struct VendorEntry {
    pub prefix: Vec<u8>,
    pub name: String,
}

/// An assignment as contracts see it.
pub struct VendorRule {
    pub prefix: Seq<u8>,
    pub name: Seq<char>,
}

impl View for VendorEntry {
    type V = VendorRule;

    open spec fn view(&self) -> VendorRule {
        VendorRule { prefix: self.prefix@, name: self.name@ }
    }
}

/// True when `prefix` is the beginning of `mac`.
pub open spec fn covers(prefix: Seq<u8>, mac: MacAddress) -> bool {
    prefix.len() <= 6 && prefix == mac.bytes().subrange(0, prefix.len() as int)
}

/// True when rule `index` is the one that answers for `mac`: it covers the
/// address, no rule that covers it is longer, and no rule of the same length
/// that covers it was loaded earlier.
pub open spec fn answers(rules: Seq<VendorRule>, mac: MacAddress, index: int) -> bool {
    &&& 0 <= index < rules.len()
    &&& covers(rules[index].prefix, mac)
    &&& forall|other: int|
        0 <= other < rules.len() && covers(#[trigger] rules[other].prefix, mac) ==> {
            ||| rules[other].prefix.len() < rules[index].prefix.len()
            ||| (rules[other].prefix.len() == rules[index].prefix.len() && index <= other)
        }
}

/// The name that a table gives for `mac`, if any of its rules covers it.
pub open spec fn resolve(rules: Seq<VendorRule>, mac: MacAddress) -> Option<Seq<char>> {
    if exists|index: int| answers(rules, mac, index) {
        Some(rules[choose|index: int| answers(rules, mac, index)].name)
    } else {
        None
    }
}

/// At most one rule answers for an address.
pub proof fn lemma_answer_is_unique(rules: Seq<VendorRule>, mac: MacAddress, first: int, second: int)
    requires
        answers(rules, mac, first),
        answers(rules, mac, second),
    ensures
        first == second,
{
    assert(covers(rules[first].prefix, mac));
    assert(covers(rules[second].prefix, mac));
}

/// The rule that answers for `mac` among the first `count` rules, if any
/// of them covers the address.
pub open spec fn answer_among(rules: Seq<VendorRule>, mac: MacAddress, count: nat) -> Option<int>
    decreases count,
{
    if count == 0 {
        None
    } else {
        let last = count - 1;
        match answer_among(rules, mac, last as nat) {
            Some(earlier) => if covers(rules[last].prefix, mac) && rules[last].prefix.len()
                > rules[earlier].prefix.len() {
                Some(last)
            } else {
                Some(earlier)
            },
            None => if covers(rules[last].prefix, mac) {
                Some(last)
            } else {
                None
            },
        }
    }
}

/// Scanning the rules in order and keeping the strictly longer match finds
/// the rule that answers among the first `count`.
pub proof fn lemma_answer_among(rules: Seq<VendorRule>, mac: MacAddress, count: nat)
    requires
        count <= rules.len(),
    ensures
        match answer_among(rules, mac, count) {
            Some(found) => answers(rules.take(count as int), mac, found),
            None => forall|index: int| 0 <= index < count ==> !covers(#[trigger] rules[index].prefix, mac),
        },
    decreases count,
{
    if count > 0 {
        let last = (count - 1) as nat;
        lemma_answer_among(rules, mac, last);
        let shorter = rules.take(last as int);
        let longer = rules.take(count as int);
        assert forall|index: int| 0 <= index < last implies #[trigger] longer[index] == shorter[index] by {}
        match answer_among(rules, mac, count) {
            Some(found) => {
                assert forall|other: int|
                    0 <= other < longer.len() && covers(#[trigger] longer[other].prefix, mac) implies ({
                    ||| longer[other].prefix.len() < longer[found].prefix.len()
                    ||| (longer[other].prefix.len() == longer[found].prefix.len() && found <= other)
                }) by {
                    if other < last {
                        assert(covers(shorter[other].prefix, mac));
                        assert(covers(rules[other].prefix, mac));
                    }
                }
            },
            None => {},
        }
    }
}

/// Longest prefix wins: whenever some rule covers an address, the lookup
/// has an answer, and no covering rule is longer than the one that answers.
pub proof fn lemma_longest_prefix_wins(rules: Seq<VendorRule>, mac: MacAddress, index: int)
    requires
        0 <= index < rules.len(),
        covers(rules[index].prefix, mac),
    ensures
        exists|winner: int|
            answers(rules, mac, winner) && rules[winner].prefix.len() >= rules[index].prefix.len()
                && resolve(rules, mac) == Some(rules[winner].name),
{
    lemma_answer_among(rules, mac, rules.len());
    assert(rules.take(rules.len() as int) =~= rules);
    let winner = answer_among(rules, mac, rules.len()).unwrap();
    assert(answers(rules, mac, winner));
    let chosen = choose|k: int| answers(rules, mac, k);
    lemma_answer_is_unique(rules, mac, winner, chosen);
}

/// A table of assignments, in the order in which they were loaded.
#[derive(Clone, Debug)]
pub struct VendorTable {
    entries: Vec<VendorEntry>,
}

impl VendorTable {
    /// The rules of the table, first loaded first.
    pub closed spec fn rules(&self) -> Seq<VendorRule> {
        self.entries@.map_values(|entry: VendorEntry| entry@)
    }

    /// Every prefix of a table has between three and six octets.
    pub closed spec fn well_formed(&self) -> bool {
        forall|index: int|
            0 <= index < self.entries@.len() ==> MIN_PREFIX_LEN <= (
            #[trigger] self.entries@[index]).prefix@.len() <= MAX_PREFIX_LEN
    }

    /// A table without rules: every lookup in it misses.
    pub fn new() -> (table: VendorTable)
        ensures
            table.well_formed(),
            table.rules() == Seq::<VendorRule>::empty(),
    {
        let table = VendorTable { entries: Vec::new() };
        assert(table.rules() =~= Seq::<VendorRule>::empty());
        table
    }

    /// Number of rules in the table.
    pub fn len(&self) -> (count: usize)
        ensures
            count == self.rules().len(),
    {
        self.entries.len()
    }

    /// True when the table holds no rule.
    pub fn is_empty(&self) -> (empty: bool)
        ensures
            empty == (self.rules().len() == 0),
    {
        self.entries.len() == 0
    }

    /// Appends a rule. A prefix shorter than three octets or longer than six
    /// is refused, and the table stays as it was.
    pub fn insert(&mut self, prefix: Vec<u8>, name: String) -> (accepted: bool)
        requires
            old(self).well_formed(),
        ensures
            final(self).well_formed(),
            accepted == (MIN_PREFIX_LEN <= prefix@.len() <= MAX_PREFIX_LEN),
            accepted ==> final(self).rules() == old(self).rules().push(
                VendorRule { prefix: prefix@, name: name@ },
            ),
            !accepted ==> final(self).rules() == old(self).rules(),
    {
        if prefix.len() < MIN_PREFIX_LEN || prefix.len() > MAX_PREFIX_LEN {
            return false;
        }
        let ghost rule = VendorRule { prefix: prefix@, name: name@ };
        self.entries.push(VendorEntry { prefix, name });
        assert(self.rules() =~= old(self).rules().push(rule));
        true
    }

    /// Looks up the manufacturer of `mac`: the name of the longest prefix
    /// that covers the address, the first loaded among equally long ones, or
    /// `None` when no prefix covers it.
    pub fn search_by_mac(&self, mac: &MacAddress) -> (name: Option<String>)
        requires
            self.well_formed(),
        ensures
            match name {
                Some(text) => exists|index: int|
                    answers(self.rules(), *mac, index) && text@ == self.rules()[index].name,
                None => forall|index: int|
                    0 <= index < self.rules().len() ==> !covers(
                        #[trigger] self.rules()[index].prefix,
                        *mac,
                    ),
            },
            name.is_some() == resolve(self.rules(), *mac).is_some(),
            name.is_some() ==> name.unwrap()@ == resolve(self.rules(), *mac).unwrap(),
    {
        let ghost rules = self.rules();
        let mut best: Option<usize> = None;
        let mut best_len: usize = 0;
        let mut index: usize = 0;
        while index < self.entries.len()
            invariant
                index <= self.entries@.len(),
                rules == self.rules(),
                rules.len() == self.entries@.len(),
                match best {
                    Some(found) => {
                        &&& found < index
                        &&& best_len == rules[found as int].prefix.len()
                        &&& covers(rules[found as int].prefix, *mac)
                        &&& forall|other: int|
                            0 <= other < index && covers(#[trigger] rules[other].prefix, *mac) ==> {
                                ||| rules[other].prefix.len() < best_len
                                ||| (rules[other].prefix.len() == best_len && found <= other)
                            }
                    },
                    None => forall|other: int|
                        0 <= other < index ==> !covers(#[trigger] rules[other].prefix, *mac),
                },
            decreases self.entries@.len() - index,
        {
            let entry = &self.entries[index];
            assert(rules[index as int] == entry@);
            let hit = prefix_covers(&entry.prefix, mac);
            if hit {
                let longer = match best {
                    Some(_) => entry.prefix.len() > best_len,
                    None => true,
                };
                if longer {
                    best = Some(index);
                    best_len = entry.prefix.len();
                }
            }
            index = index + 1;
        }
        match best {
            Some(found) => {
                let text = self.entries[found].name.clone();
                proof {
                    assert(rules[found as int] == self.entries@[found as int]@);
                    assert(answers(rules, *mac, found as int));
                    let chosen = choose|index: int| answers(rules, *mac, index);
                    lemma_answer_is_unique(rules, *mac, found as int, chosen);
                }
                Some(text)
            },
            None => {
                proof {
                    assert forall|index: int| !answers(rules, *mac, index) by {
                        if 0 <= index < rules.len() {
                            assert(!covers(rules[index].prefix, *mac));
                        }
                    }
                }
                None
            },
        }
    }
}

/// Tells whether `prefix` is the beginning of `mac`.
fn prefix_covers(prefix: &Vec<u8>, mac: &MacAddress) -> (hit: bool)
    ensures
        hit == covers(prefix@, *mac),
{
    if prefix.len() > 6 {
        return false;
    }
    let mut at: usize = 0;
    while at < prefix.len()
        invariant
            at <= prefix@.len() <= 6,
            forall|k: int| 0 <= k < at ==> prefix@[k] == mac.bytes()[k],
        decreases prefix@.len() - at,
    {
        if prefix[at] != mac.octet(at) {
            assert(mac.bytes().subrange(0, prefix@.len() as int)[at as int] != prefix@[at as int]);
            return false;
        }
        at = at + 1;
    }
    assert(prefix@ =~= mac.bytes().subrange(0, prefix@.len() as int));
    true
}

/// True for the characters that may stand between the octets of a prefix.
pub open spec fn is_separator(c: char) -> bool {
    c == ':' || c == '-' || c == '.'
}

/// The value of a hexadecimal digit, upper or lower case.
pub open spec fn hex_value(c: char) -> Option<u8> {
    let code = c as u32;
    if 48 <= code <= 57 {
        Some((code - 48) as u8)
    } else if 65 <= code <= 70 {
        Some((code - 55) as u8)
    } else if 97 <= code <= 102 {
        Some((code - 87) as u8)
    } else {
        None
    }
}

/// The hexadecimal digits of `text` in order, separators left out; `None`
/// when `text` holds anything else.
pub open spec fn hex_digits(text: Seq<char>) -> Option<Seq<u8>>
    decreases text.len(),
{
    if text.len() == 0 {
        Some(Seq::<u8>::empty())
    } else {
        match hex_digits(text.drop_last()) {
            Some(digits) => if is_separator(text.last()) {
                Some(digits)
            } else {
                match hex_value(text.last()) {
                    Some(value) => Some(digits.push(value)),
                    None => None,
                }
            },
            None => None,
        }
    }
}

/// The octets that pairs of hexadecimal digits stand for.
pub open spec fn pack_octets(digits: Seq<u8>) -> Seq<u8> {
    Seq::new(digits.len() / 2, |i: int| (digits[2 * i] * 16 + digits[2 * i + 1]) as u8)
}

/// The prefix that `text` denotes: three to six octets, each written as two
/// hexadecimal digits, with or without separators between them.
pub open spec fn prefix_of_text(text: Seq<char>) -> Option<Seq<u8>> {
    match hex_digits(text) {
        Some(digits) => if digits.len() % 2 == 0 && 2 * MIN_PREFIX_LEN <= digits.len() <= 2
            * MAX_PREFIX_LEN {
            Some(pack_octets(digits))
        } else {
            None
        },
        None => None,
    }
}

fn hex_value_of(c: char) -> (value: Option<u8>)
    ensures
        value == hex_value(c),
        value.is_some() ==> value.unwrap() < 16,
{
    let code: u32 = c as u32;
    if 48 <= code && code <= 57 {
        Some((code - 48) as u8)
    } else if 65 <= code && code <= 70 {
        Some((code - 55) as u8)
    } else if 97 <= code && code <= 102 {
        Some((code - 87) as u8)
    } else {
        None
    }
}

/// Reads a prefix written as text, such as `AA:BB:CC`, `aa-bb-cc-dd` or
/// `AABBCC`. Gives `None` for text that holds anything but hexadecimal
/// digits and separators, an odd number of digits, or fewer than three or
/// more than six octets.
pub fn parse_prefix(text: &str) -> (prefix: Option<Vec<u8>>)
    ensures
        prefix.is_some() == prefix_of_text(text@).is_some(),
        prefix.is_some() ==> prefix.unwrap()@ == prefix_of_text(text@).unwrap(),
{
    let length: usize = text.unicode_len();
    let mut digits: Vec<u8> = Vec::new();
    let mut valid: bool = true;
    let mut at: usize = 0;
    assert(text@.subrange(0, 0) =~= Seq::<char>::empty());
    while at < length
        invariant
            length == text@.len(),
            at <= length,
            valid ==> hex_digits(text@.subrange(0, at as int)) == Some(digits@),
            !valid ==> hex_digits(text@.subrange(0, at as int)).is_none(),
            forall|k: int| 0 <= k < digits@.len() ==> digits@[k] < 16,
        decreases length - at,
    {
        let c: char = text.get_char(at);
        proof {
            let longer = text@.subrange(0, at + 1);
            assert(longer.drop_last() =~= text@.subrange(0, at as int));
            assert(longer.last() == c);
        }
        if valid {
            let separator: bool = c == ':' || c == '-' || c == '.';
            if !separator {
                match hex_value_of(c) {
                    Some(value) => {
                        digits.push(value);
                    },
                    None => {
                        valid = false;
                    },
                }
            }
        }
        at = at + 1;
    }
    assert(text@.subrange(0, length as int) =~= text@);
    if !valid || digits.len() % 2 != 0 || digits.len() < 2 * MIN_PREFIX_LEN || digits.len() > 2
        * MAX_PREFIX_LEN {
        return None;
    }
    let count: usize = digits.len() / 2;
    let mut octets: Vec<u8> = Vec::new();
    let mut index: usize = 0;
    while index < count
        invariant
            count == digits@.len() / 2,
            digits@.len() % 2 == 0,
            digits@.len() <= 2 * MAX_PREFIX_LEN,
            index <= count,
            octets@.len() == index,
            forall|k: int| 0 <= k < digits@.len() ==> digits@[k] < 16,
            forall|k: int| 0 <= k < index ==> octets@[k] == pack_octets(digits@)[k],
        decreases count - index,
    {
        let high: u8 = digits[2 * index];
        let low: u8 = digits[2 * index + 1];
        octets.push(high * 16 + low);
        index = index + 1;
    }
    assert(octets@ =~= pack_octets(digits@));
    Some(octets)
}

impl VendorTable {
    /// Appends the rule that `prefix_text` and `name` describe. Text that
    /// denotes no prefix is refused, and the table stays as it was.
    pub fn add(&mut self, prefix_text: &str, name: &str) -> (accepted: bool)
        requires
            old(self).well_formed(),
        ensures
            final(self).well_formed(),
            accepted == prefix_of_text(prefix_text@).is_some(),
            accepted ==> final(self).rules() == old(self).rules().push(
                VendorRule { prefix: prefix_of_text(prefix_text@).unwrap(), name: name@ },
            ),
            !accepted ==> final(self).rules() == old(self).rules(),
    {
        match parse_prefix(prefix_text) {
            Some(prefix) => {
                assert(pack_octets(hex_digits(prefix_text@).unwrap()).len() == hex_digits(
                    prefix_text@,
                ).unwrap().len() / 2);
                self.insert(prefix, name.to_owned())
            },
            None => false,
        }
    }
}

/// The rules that a table of text holds: of each row with at least two
/// fields whose first field denotes a prefix, the prefix and the second
/// field as the name, in the order of the rows. Other rows are passed over.
pub open spec fn rules_of_rows(rows: Seq<Seq<Seq<char>>>) -> Seq<VendorRule>
    decreases rows.len(),
{
    if rows.len() == 0 {
        Seq::<VendorRule>::empty()
    } else {
        let earlier = rules_of_rows(rows.drop_last());
        let row = rows.last();
        if row.len() >= 2 && prefix_of_text(row[0]).is_some() {
            earlier.push(VendorRule { prefix: prefix_of_text(row[0]).unwrap(), name: row[1] })
        } else {
            earlier
        }
    }
}

impl VendorTable {
    /// Builds a table from rows of text fields: the first field of a row is
    /// the prefix, the second the name.
    pub fn from_rows(rows: &Vec<Vec<String>>) -> (table: VendorTable)
        ensures
            table.well_formed(),
            table.rules() == rules_of_rows(table_view(rows@)),
    {
        let ghost view = table_view(rows@);
        let mut table = VendorTable::new();
        let mut at: usize = 0;
        assert(view.subrange(0, 0) =~= Seq::<Seq<Seq<char>>>::empty());
        while at < rows.len()
            invariant
                at <= rows@.len(),
                view == table_view(rows@),
                view.len() == rows@.len(),
                table.well_formed(),
                table.rules() == rules_of_rows(view.subrange(0, at as int)),
            decreases rows@.len() - at,
        {
            let row = &rows[at];
            proof {
                let longer = view.subrange(0, at + 1);
                assert(longer.drop_last() =~= view.subrange(0, at as int));
                assert(longer.last() == view[at as int]);
                assert(view[at as int] == row@.map_values(|field: String| field@));
            }
            if row.len() >= 2 {
                table.add(row[0].as_str(), row[1].as_str());
            }
            at = at + 1;
        }
        assert(view.subrange(0, rows@.len() as int) =~= view);
        table
    }

    /// Loads a table from comma-separated text whose first record is a
    /// header. The second component tells whether the text could be read;
    /// where it could not, the table is empty and every lookup misses.
    pub fn from_csv(data: &[u8]) -> (loaded: (VendorTable, bool))
        ensures
            loaded.0.well_formed(),
            loaded.1 == csv_rows(data@).is_some(),
            loaded.1 ==> loaded.0.rules() == rules_of_rows(csv_rows(data@).unwrap()),
            !loaded.1 ==> loaded.0.rules() == Seq::<VendorRule>::empty(),
    {
        match read_rows(data) {
            Some(rows) => (VendorTable::from_rows(&rows), true),
            None => (VendorTable::new(), false),
        }
    }
}

} // verus!
