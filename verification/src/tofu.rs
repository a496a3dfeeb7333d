use vstd::prelude::*;
use vstd::string::StringExecFns;
use vstd::string::StrSliceExecFns;
use crate::codec::{
    base64_decode, base64_encode, is_base64_char, is_digit, law_base64_alphabet,
    law_decimal_roundtrip, parse_u64,
    spec_base64_decode, spec_base64_encode, spec_decimal, spec_parse_u64, u64_to_decimal,
};
use crate::crypto::{
    client_payload_fits, decrypt_client_message, key_from_slice, spec_decrypt_client_message, Key,
    Pubkey,
};
use crate::relay::{spec_relay_open, RelayCipher};
use crate::codec::string_from_utf8;
use crate::text::{
    join_lines, law_lines_of_joined, spec_join_lines, lemma_first_occurrence, lemma_no_occurrence, plain_line,
    push_char, spec_lines, split_lines, strings_view,
};

verus! {

/// The table that a list of (key, last sequence number) pairs describes; a later pair for a
/// key overrides an earlier one.
pub open spec fn pairs_map(ps: Seq<(Seq<u8>, u64)>) -> Map<Seq<u8>, u64>
    decreases ps.len(),
{
    if ps.len() == 0 {
        Map::empty()
    } else {
        pairs_map(ps.drop_last()).insert(ps.last().0, ps.last().1)
    }
}

pub open spec fn distinct_keys(ps: Seq<(Seq<u8>, u64)>) -> bool {
    forall|i: int, j: int| 0 <= i < j < ps.len() ==> #[trigger] ps[i].0 != #[trigger] ps[j].0
}

/// Recording sequence number `seq` for `key`: accepted when the key is new or `seq` is above
/// the last one recorded.
pub open spec fn spec_insert(m: Map<Seq<u8>, u64>, key: Seq<u8>, seq: u64) -> (Map<Seq<u8>, u64>, bool) {
    if m.contains_key(key) {
        if m[key] < seq {
            (m.insert(key, seq), true)
        } else {
            (m, false)
        }
    } else {
        (m.insert(key, seq), true)
    }
}

/// Checking `seq` for `key`: unknown keys give `None` and change nothing; a known key with a
/// higher sequence number gives `Some(true)` and records it; otherwise `Some(false)`.
pub open spec fn spec_check(m: Map<Seq<u8>, u64>, key: Seq<u8>, seq: u64) -> (Map<Seq<u8>, u64>, Option<bool>) {
    if m.contains_key(key) {
        if m[key] < seq {
            (m.insert(key, seq), Some(true))
        } else {
            (m, Some(false))
        }
    } else {
        (m, None)
    }
}

/// No key is forgotten and no recorded sequence number goes down.
pub open spec fn table_grows(old: Map<Seq<u8>, u64>, new: Map<Seq<u8>, u64>) -> bool {
    forall|k: Seq<u8>| #[trigger] old.contains_key(k) ==> new.contains_key(k) && old[k] <= new[k]
}

proof fn lemma_pairs_index(ps: Seq<(Seq<u8>, u64)>, i: int)
    requires
        distinct_keys(ps),
        0 <= i < ps.len(),
    ensures
        pairs_map(ps).contains_key(ps[i].0),
        pairs_map(ps)[ps[i].0] == ps[i].1,
    decreases ps.len(),
{
    if i < ps.len() - 1 {
        let q = ps.drop_last();
        assert(q[i] == ps[i]);
        assert(distinct_keys(q)) by {
            assert forall|a: int, b: int| 0 <= a < b < q.len() implies #[trigger] q[a].0
                != #[trigger] q[b].0 by {
                assert(q[a] == ps[a] && q[b] == ps[b]);
            }
        }
        lemma_pairs_index(q, i);
        assert(ps[i].0 != ps[ps.len() - 1].0);
    }
}

proof fn lemma_pairs_contains(ps: Seq<(Seq<u8>, u64)>, k: Seq<u8>)
    ensures
        pairs_map(ps).contains_key(k) <==> exists|i: int| 0 <= i < ps.len() && #[trigger] ps[i].0 == k,
    decreases ps.len(),
{
    if ps.len() > 0 {
        let q = ps.drop_last();
        lemma_pairs_contains(q, k);
        if pairs_map(ps).contains_key(k) {
            if k == ps.last().0 {
                assert(ps[ps.len() - 1].0 == k);
            } else {
                let i = choose|i: int| 0 <= i < q.len() && #[trigger] q[i].0 == k;
                assert(ps[i] == q[i]);
            }
        }
        if exists|i: int| 0 <= i < ps.len() && #[trigger] ps[i].0 == k {
            let i = choose|i: int| 0 <= i < ps.len() && #[trigger] ps[i].0 == k;
            if i < ps.len() - 1 {
                assert(q[i] == ps[i]);
            }
        }
    }
}

proof fn lemma_pairs_update(ps: Seq<(Seq<u8>, u64)>, i: int, v: u64)
    requires
        distinct_keys(ps),
        0 <= i < ps.len(),
    ensures
        pairs_map(ps.update(i, (ps[i].0, v))) == pairs_map(ps).insert(ps[i].0, v),
        distinct_keys(ps.update(i, (ps[i].0, v))),
    decreases ps.len(),
{
    let u = ps.update(i, (ps[i].0, v));
    assert(distinct_keys(u)) by {
        assert forall|a: int, b: int| 0 <= a < b < u.len() implies #[trigger] u[a].0
            != #[trigger] u[b].0 by {
            assert(u[a].0 == ps[a].0 && u[b].0 == ps[b].0);
        }
    }
    let q = ps.drop_last();
    if i == ps.len() - 1 {
        assert(u.drop_last() == q);
        assert(pairs_map(u) =~= pairs_map(ps).insert(ps[i].0, v));
    } else {
        assert(distinct_keys(q)) by {
            assert forall|a: int, b: int| 0 <= a < b < q.len() implies #[trigger] q[a].0
                != #[trigger] q[b].0 by {
                assert(q[a] == ps[a] && q[b] == ps[b]);
            }
        }
        lemma_pairs_update(q, i, v);
        assert(u.drop_last() == q.update(i, (q[i].0, v)));
        assert(ps[i].0 != ps.last().0);
        assert(pairs_map(u) =~= pairs_map(ps).insert(ps[i].0, v));
    }
}

proof fn lemma_drop_last_distinct(ps: Seq<(Seq<u8>, u64)>)
    requires
        distinct_keys(ps),
        ps.len() > 0,
    ensures
        distinct_keys(ps.drop_last()),
{
    let q = ps.drop_last();
    assert forall|a: int, b: int| 0 <= a < b < q.len() implies #[trigger] q[a].0
        != #[trigger] q[b].0 by {
        assert(q[a] == ps[a] && q[b] == ps[b]);
    }
}

/// A list of pairs with distinct keys describes a table with one key per pair.
proof fn lemma_pairs_len(ps: Seq<(Seq<u8>, u64)>)
    requires
        distinct_keys(ps),
    ensures
        pairs_map(ps).dom().finite(),
        pairs_map(ps).len() == ps.len(),
    decreases ps.len(),
{
    if ps.len() == 0 {
        assert(pairs_map(ps).dom() =~= Set::<Seq<u8>>::empty());
    } else {
        let q = ps.drop_last();
        let k = ps.last().0;
        lemma_drop_last_distinct(ps);
        lemma_pairs_len(q);
        lemma_pairs_contains(q, k);
        if pairs_map(q).contains_key(k) {
            let i = choose|i: int| 0 <= i < q.len() && #[trigger] q[i].0 == k;
            assert(ps[i] == q[i]);
            assert(ps[i].0 != ps[ps.len() - 1].0);
        }
        assert(pairs_map(ps).dom() =~= pairs_map(q).dom().insert(k));
    }
}

/// Byte-wise comparison of two keys.
pub fn keys_equal(a: &Pubkey, b: &Pubkey) -> (r: bool)
    ensures
        r == (a@ == b@),
{
    let mut i: usize = 0;
    while i < 32
        invariant
            i <= 32,
            forall|j: int| 0 <= j < i ==> a@[j] == b@[j],
        decreases 32 - i,
    {
        if a[i] != b[i] {
            return false;
        }
        i = i + 1;
    }
    proof {
        assert(a@ =~= b@);
    }
    true
}

/// The keys that have been trusted, each with the last sequence number seen from it. The
/// entries are a list of (key, number) pairs whose keys are distinct (the type's invariant),
/// in the order in which keys were first trusted; the view is the map from key to number.
/// vstd specifies `HashMap` only for keys with a hashing model (integers, `bool`, boxes of
/// them), which a 32-byte key does not have, so the table is kept as this list.
pub struct TofuTable {
    entries: Vec<(Pubkey, u64)>,
}

/// The plain values of a list of entries.
pub open spec fn entries_view(es: Seq<(Pubkey, u64)>) -> Seq<(Seq<u8>, u64)> {
    es.map_values(|e: (Pubkey, u64)| (e.0@, e.1))
}

impl TofuTable {
    #[verifier::type_invariant]
    spec fn keys_distinct(self) -> bool {
        distinct_keys(entries_view(self.entries@))
    }

    /// The entries, in the order in which they are kept and saved.
    pub closed spec fn pairs(self) -> Seq<(Seq<u8>, u64)> {
        entries_view(self.entries@)
    }
}

impl View for TofuTable {
    type V = Map<Seq<u8>, u64>;

    open spec fn view(&self) -> Map<Seq<u8>, u64> {
        pairs_map(self.pairs())
    }
}

impl TofuTable {
    /// The empty table.
    pub fn new() -> (t: TofuTable)
        ensures
            t@ == Map::<Seq<u8>, u64>::empty(),
            t.pairs().len() == 0,
    {
        TofuTable { entries: Vec::new() }
    }

    /// Number of trusted keys.
    pub fn len(&self) -> (n: usize)
        ensures
            n == self.pairs().len(),
    {
        self.entries.len()
    }

    fn find(&self, key: &Pubkey) -> (r: Option<usize>)
        ensures
            match r {
                Some(i) => i < self.pairs().len() && self.pairs()[i as int].0 == key@,
                None => forall|i: int| 0 <= i < self.pairs().len() ==> #[trigger] self.pairs()[i].0 != key@,
            },
    {
        let n = self.entries.len();
        for i in 0..n
            invariant
                n == self.entries@.len(),
                forall|j: int| 0 <= j < i ==> #[trigger] self.pairs()[j].0 != key@,
        {
            if keys_equal(&self.entries[i].0, key) {
                return Some(i);
            }
        }
        None
    }

    /// The last sequence number recorded for `key`.
    pub fn get(&self, key: &Pubkey) -> (r: Option<u64>)
        ensures
            match r {
                Some(s) => self@.contains_key(key@) && self@[key@] == s,
                None => !self@.contains_key(key@),
            },
    {
        proof {
            use_type_invariant(self);
            lemma_pairs_contains(self.pairs(), key@);
        }
        match self.find(key) {
            Some(i) => {
                proof {
                    lemma_pairs_index(self.pairs(), i as int);
                }
                Some(self.entries[i].1)
            },
            None => None,
        }
    }

    /// Records `seq` for `key` if the key is new or `seq` is above the last number recorded;
    /// says whether it did.
    pub fn insert(&mut self, key: Pubkey, seq: u64) -> (accepted: bool)
        ensures
            (final(self)@, accepted) == spec_insert(old(self)@, key@, seq),
    {
        proof {
            use_type_invariant(&*self);
            lemma_pairs_contains(self.pairs(), key@);
        }
        match self.find(&key) {
            Some(i) => {
                proof {
                    lemma_pairs_index(self.pairs(), i as int);
                }
                if self.entries[i].1 < seq {
                    proof {
                        lemma_pairs_update(self.pairs(), i as int, seq);
                        assert(entries_view(self.entries@.update(i as int, (key, seq)))
                            =~= self.pairs().update(i as int, (self.pairs()[i as int].0, seq)));
                    }
                    let mut es: Vec<(Pubkey, u64)> = Vec::new();
                    std::mem::swap(&mut es, &mut self.entries);
                    es.set(i, (key, seq));
                    self.entries = es;
                    true
                } else {
                    false
                }
            },
            None => {
                proof {
                    let ps = self.pairs();
                    let ps2 = entries_view(self.entries@.push((key, seq)));
                    assert(ps2 =~= ps.push((key@, seq)));
                    assert(ps2.drop_last() =~= ps);
                    assert(distinct_keys(ps2)) by {
                        assert forall|a: int, b: int| 0 <= a < b < ps2.len() implies #[trigger] ps2[a].0
                            != #[trigger] ps2[b].0 by {
                            if b < ps.len() {
                                assert(ps2[a] == ps[a] && ps2[b] == ps[b]);
                            } else {
                                assert(ps2[a] == ps[a]);
                            }
                        }
                    }
                }
                let mut es: Vec<(Pubkey, u64)> = Vec::new();
                std::mem::swap(&mut es, &mut self.entries);
                es.push((key, seq));
                self.entries = es;
                true
            },
        }
    }

    /// Checks `seq` against the last number recorded for `key`, recording it when it is
    /// higher; `None` for a key that is not in the table.
    pub fn check(&mut self, key: &Pubkey, seq: u64) -> (r: Option<bool>)
        ensures
            (final(self)@, r) == spec_check(old(self)@, key@, seq),
    {
        proof {
            use_type_invariant(&*self);
            lemma_pairs_contains(self.pairs(), key@);
        }
        match self.find(key) {
            Some(i) => {
                proof {
                    lemma_pairs_index(self.pairs(), i as int);
                }
                if self.entries[i].1 < seq {
                    let k = self.entries[i].0;
                    proof {
                        lemma_pairs_update(self.pairs(), i as int, seq);
                        assert(entries_view(self.entries@.update(i as int, (k, seq)))
                            =~= self.pairs().update(i as int, (self.pairs()[i as int].0, seq)));
                    }
                    let mut es: Vec<(Pubkey, u64)> = Vec::new();
                    std::mem::swap(&mut es, &mut self.entries);
                    es.set(i, (k, seq));
                    self.entries = es;
                    Some(true)
                } else {
                    Some(false)
                }
            },
            None => None,
        }
    }
}


// ---------------------------------------------------------------------------
// The saved form: one line `base64(key),seq` per trusted key
// ---------------------------------------------------------------------------

/// The saved line of one entry.
pub open spec fn spec_tofu_line(key: Seq<u8>, seq: u64) -> Seq<char> {
    spec_base64_encode(key) + seq![','] + spec_decimal(seq as nat)
}

/// The saved lines of a list of entries, in its order.
pub open spec fn spec_saved_lines(ps: Seq<(Seq<u8>, u64)>) -> Seq<Seq<char>> {
    ps.map_values(|p: (Seq<u8>, u64)| spec_tofu_line(p.0, p.1))
}

/// The saved records of a list of entries, in its order: each saved line followed by `\n`.
pub open spec fn spec_saved_records(ps: Seq<(Seq<u8>, u64)>) -> Seq<Seq<char>> {
    ps.map_values(|p: (Seq<u8>, u64)| spec_tofu_line(p.0, p.1).push('\n'))
}

/// The second `,`-separated field of `line`, given the position `d` of its first `,`.
pub open spec fn second_field(line: Seq<char>, d: int) -> Seq<char> {
    let after = line.skip(d + 1);
    match after.index_of_first(',') {
        Some(e) => after.take(e),
        None => after,
    }
}

/// What a saved line reads back as: the first `,`-separated field must decode from base64 to
/// a 32-byte key and the second must parse as a u64; further fields are ignored.
pub open spec fn spec_parse_tofu_line(line: Seq<char>) -> Option<(Seq<u8>, u64)> {
    match line.index_of_first(',') {
        None => None,
        Some(d) => match spec_base64_decode(line.take(d)) {
            Some(k) => if k.len() == 32 {
                match spec_parse_u64(second_field(line, d)) {
                    Some(n) => Some((k, n)),
                    None => None,
                }
            } else {
                None
            },
            None => None,
        },
    }
}

/// The table that a list of saved lines loads as: lines that do not read back are skipped,
/// and a later line for a key overrides an earlier one.
pub open spec fn spec_load(lines: Seq<Seq<char>>) -> Map<Seq<u8>, u64>
    decreases lines.len(),
{
    if lines.len() == 0 {
        Map::empty()
    } else {
        let m = spec_load(lines.drop_last());
        match spec_parse_tofu_line(lines.last()) {
            Some((k, n)) => m.insert(k, n),
            None => m,
        }
    }
}

/// No lines load as the empty table.
pub proof fn law_load_empty()
    ensures
        spec_load(Seq::<Seq<char>>::empty()) == Map::<Seq<u8>, u64>::empty(),
{
}

/// A line that does not read back leaves the loaded table as the lines before it made it.
pub proof fn law_load_skips_unreadable(lines: Seq<Seq<char>>, l: Seq<char>)
    requires
        spec_parse_tofu_line(l) is None,
    ensures
        spec_load(lines.push(l)) == spec_load(lines),
{
    assert(lines.push(l).drop_last() == lines);
}

/// A line that reads back as `(k, n)` records `n` for `k` over what the lines before it made.
pub proof fn law_load_records(lines: Seq<Seq<char>>, l: Seq<char>, k: Seq<u8>, n: u64)
    requires
        spec_parse_tofu_line(l) == Some((k, n)),
    ensures
        spec_load(lines.push(l)) == spec_load(lines).insert(k, n),
{
    assert(lines.push(l).drop_last() == lines);
}

/// An entry read from a line is in the loaded table, unless a later line that reads back
/// names the same key; unreadable lines around it change nothing.
pub proof fn law_load_keeps_entry(lines: Seq<Seq<char>>, i: int, k: Seq<u8>, n: u64)
    requires
        0 <= i < lines.len(),
        spec_parse_tofu_line(lines[i]) == Some((k, n)),
        forall|j: int|
            i < j < lines.len() ==> !(#[trigger] spec_parse_tofu_line(lines[j]) matches Some((
                k2,
                _,
            )) && k2 == k),
    ensures
        spec_load(lines).contains_key(k),
        spec_load(lines)[k] == n,
    decreases lines.len(),
{
    let p = lines.drop_last();
    if i == lines.len() - 1 {
        law_load_records(p, lines.last(), k, n);
        assert(p.push(lines.last()) == lines);
    } else {
        assert forall|j: int| i < j < p.len() implies !(#[trigger] spec_parse_tofu_line(p[j]) matches Some((
            k2,
            _,
        )) && k2 == k) by {
            assert(p[j] == lines[j]);
        }
        assert(p[i] == lines[i]);
        law_load_keeps_entry(p, i, k, n);
        assert(p.push(lines.last()) == lines);
        let j = lines.len() - 1;
        match spec_parse_tofu_line(lines.last()) {
            Some((k2, n2)) => {
                assert(spec_parse_tofu_line(lines[j]) == Some((k2, n2)));
                law_load_records(p, lines.last(), k2, n2);
            },
            None => {
                law_load_skips_unreadable(p, lines.last());
            },
        }
    }
}

/// Renders the saved line of one entry.
pub fn render_tofu_line(key: &Pubkey, seq: u64) -> (line: String)
    ensures
        line@ == spec_tofu_line(key@, seq),
        spec_parse_tofu_line(line@) == Some((key@, seq)),
        plain_line(line@),
{
    let mut line = base64_encode(key.as_slice());
    let ghost b = line@;
    push_char(&mut line, ',');
    let digits = u64_to_decimal(seq);
    line.append(digits.as_str());
    proof {
        let l = line@;
        let d = b.len() as int;
        law_decimal_roundtrip(seq);
        law_base64_alphabet(key@);
        assert(l == b + seq![','] + spec_decimal(seq as nat));
        assert forall|j: int| 0 <= j < d implies l[j] != ',' by {
            assert(l[j] == b[j]);
            assert(is_base64_char(b[j]));
        }
        lemma_first_occurrence(l, ',', d);
        assert(l.take(d) == b);
        let after = l.skip(d + 1);
        assert(after == spec_decimal(seq as nat));
        assert forall|j: int| 0 <= j < after.len() implies after[j] != ',' by {
            assert(is_digit(after[j]));
        }
        lemma_no_occurrence(after, ',');
        assert(key@.len() == 32);
        assert forall|j: int| 0 <= j < l.len() implies l[j] != '\n' && l[j] != '\r' by {
            if j < d {
                assert(l[j] == b[j]);
                assert(is_base64_char(b[j]));
            } else if j > d {
                assert(l[j] == after[j - d - 1]);
                assert(is_digit(after[j - d - 1]));
            }
        }
    }
    line
}

/// Reads one saved line back; `None` for a line that the loader skips.
pub fn parse_tofu_line(line: &str) -> (r: Option<(Pubkey, u64)>)
    ensures
        match spec_parse_tofu_line(line@) {
            Some((k, n)) => r matches Some((k2, n2)) && k2@ == k && n2 == n,
            None => r is None,
        },
{
    let n = line.unicode_len();
    let mut first: Option<usize> = None;
    let mut second: Option<usize> = None;
    let mut i: usize = 0;
    for c in it: line.chars()
        invariant
            it.seq() == line@,
            n == line@.len(),
            i == it.index(),
            i <= n,
            match first {
                None => second is None && forall|j: int| 0 <= j < i ==> line@[j] != ',',
                Some(d) => d < i && line@[d as int] == ',' && (forall|j: int|
                    0 <= j < d ==> line@[j] != ',') && match second {
                    None => forall|j: int| d < j < i ==> line@[j] != ',',
                    Some(e) => d < e < i && line@[e as int] == ',' && forall|j: int|
                        d < j < e ==> line@[j] != ',',
                },
            },
    {
        if c == ',' {
            if first.is_none() {
                first = Some(i);
            } else if second.is_none() {
                second = Some(i);
            }
        }
        i = i + 1;
    }
    match first {
        None => {
            proof {
                lemma_no_occurrence(line@, ',');
            }
            None
        },
        Some(d) => {
            proof {
                lemma_first_occurrence(line@, ',', d as int);
            }
            let end = match second {
                Some(e) => e,
                None => n,
            };
            let key_text = line.substring_char(0, d);
            let seq_text = line.substring_char(d + 1, end);
            proof {
                let after = line@.skip(d + 1);
                match second {
                    Some(e) => {
                        assert forall|j: int| 0 <= j < e - d - 1 implies after[j] != ',' by {
                            assert(after[j] == line@[d + 1 + j]);
                        }
                        lemma_first_occurrence(after, ',', e - d - 1);
                        assert(seq_text@ == after.take(e - d - 1));
                    },
                    None => {
                        assert forall|j: int| 0 <= j < after.len() implies after[j] != ',' by {
                            assert(after[j] == line@[d + 1 + j]);
                        }
                        lemma_no_occurrence(after, ',');
                        assert(seq_text@ == after);
                    },
                }
                assert(seq_text@ == second_field(line@, d as int));
            }
            match base64_decode(key_text) {
                Some(bytes) => {
                    if bytes.len() == 32 {
                        match parse_u64(seq_text) {
                            Some(seq) => {
                                let k = key_from_slice(bytes.as_slice());
                                proof {
                                    assert(bytes@.take(32) == bytes@);
                                }
                                Some((k, seq))
                            },
                            None => None,
                        }
                    } else {
                        None
                    }
                },
                None => None,
            }
        },
    }
}

/// Loading a list of lines that record a list of entries gives the table of those entries.
pub proof fn law_load_of_saved(lines: Seq<Seq<char>>, ps: Seq<(Seq<u8>, u64)>)
    requires
        lines.len() == ps.len(),
        forall|i: int| 0 <= i < lines.len() ==> spec_parse_tofu_line(#[trigger] lines[i]) == Some(ps[i]),
    ensures
        spec_load(lines) == pairs_map(ps),
    decreases lines.len(),
{
    if lines.len() > 0 {
        let l2 = lines.drop_last();
        let p2 = ps.drop_last();
        assert forall|i: int| 0 <= i < l2.len() implies spec_parse_tofu_line(#[trigger] l2[i]) == Some(p2[i]) by {
            assert(l2[i] == lines[i]);
            assert(spec_parse_tofu_line(lines[i]) == Some(ps[i]));
        }
        law_load_of_saved(l2, p2);
        assert(spec_parse_tofu_line(lines[lines.len() - 1]) == Some(ps[ps.len() - 1]));
    }
}

impl TofuTable {
    /// Sets the number recorded for `key`, whatever was there.
    fn put(&mut self, key: Pubkey, seq: u64)
        ensures
            final(self)@ == old(self)@.insert(key@, seq),
    {
        proof {
            use_type_invariant(&*self);
        }
        match self.find(&key) {
            Some(i) => {
                proof {
                    lemma_pairs_update(self.pairs(), i as int, seq);
                    assert(entries_view(self.entries@.update(i as int, (key, seq)))
                        =~= self.pairs().update(i as int, (self.pairs()[i as int].0, seq)));
                }
                let mut es: Vec<(Pubkey, u64)> = Vec::new();
                std::mem::swap(&mut es, &mut self.entries);
                es.set(i, (key, seq));
                self.entries = es;
            },
            None => {
                proof {
                    let ps = self.pairs();
                    let ps2 = entries_view(self.entries@.push((key, seq)));
                    assert(ps2 =~= ps.push((key@, seq)));
                    assert(ps2.drop_last() =~= ps);
                    assert(distinct_keys(ps2)) by {
                        assert forall|a: int, b: int| 0 <= a < b < ps2.len() implies #[trigger] ps2[a].0
                            != #[trigger] ps2[b].0 by {
                            if b < ps.len() {
                                assert(ps2[a] == ps[a] && ps2[b] == ps[b]);
                            } else {
                                assert(ps2[a] == ps[a]);
                            }
                        }
                    }
                }
                let mut es: Vec<(Pubkey, u64)> = Vec::new();
                std::mem::swap(&mut es, &mut self.entries);
                es.push((key, seq));
                self.entries = es;
            },
        }
    }

    /// The saved lines, one per entry, in the table's order.
    pub fn lines(&self) -> (lines: Vec<String>)
        ensures
            distinct_keys(self.pairs()),
            lines@.len() == self.pairs().len(),
            lines@.len() == self@.len(),
            strings_view(lines@) == spec_saved_lines(self.pairs()),
            forall|i: int|
                0 <= i < lines@.len() ==> (#[trigger] lines@[i])@ == spec_tofu_line(
                    self.pairs()[i].0,
                    self.pairs()[i].1,
                ) && spec_parse_tofu_line(lines@[i]@) == Some(self.pairs()[i]) && plain_line(
                    lines@[i]@,
                ),
            spec_load(strings_view(lines@)) == self@,
    {
        let mut out: Vec<String> = Vec::new();
        let n = self.entries.len();
        for i in 0..n
            invariant
                n == self.entries@.len(),
                out@.len() == i,
                forall|j: int|
                    0 <= j < i ==> (#[trigger] out@[j])@ == spec_tofu_line(
                        self.pairs()[j].0,
                        self.pairs()[j].1,
                    ) && spec_parse_tofu_line(out@[j]@) == Some(self.pairs()[j]) && plain_line(
                        out@[j]@,
                    ),
        {
            let line = render_tofu_line(&self.entries[i].0, self.entries[i].1);
            out.push(line);
        }
        proof {
            use_type_invariant(self);
            lemma_pairs_len(self.pairs());
            assert(strings_view(out@) =~= spec_saved_lines(self.pairs()));
            let ls = strings_view(out@);
            assert forall|i: int| 0 <= i < ls.len() implies spec_parse_tofu_line(#[trigger] ls[i])
                == Some(self.pairs()[i]) by {
                assert(ls[i] == out@[i]@);
            }
            law_load_of_saved(ls, self.pairs());
        }
        out
    }

    /// Builds the table from saved lines, skipping those that do not read back.
    pub fn from_lines(lines: &Vec<String>) -> (t: TofuTable)
        ensures
            t@ == spec_load(strings_view(lines@)),
    {
        let mut t = TofuTable::new();
        let n = lines.len();
        for i in 0..n
            invariant
                n == lines@.len(),
                t@ == spec_load(strings_view(lines@).take(i as int)),
        {
            let ghost ls = strings_view(lines@);
            proof {
                assert(ls.take(i + 1).drop_last() == ls.take(i as int));
                assert(ls.take(i + 1).last() == lines@[i as int]@);
            }
            match parse_tofu_line(lines[i].as_str()) {
                Some((k, s)) => t.put(k, s),
                None => {},
            }
        }
        proof {
            assert(strings_view(lines@).take(n as int) == strings_view(lines@));
        }
        t
    }

    /// Reads the table from its text form: one saved line per text line.
    pub fn read(buf: &str) -> (t: TofuTable)
        ensures
            t@ == spec_load(spec_lines(buf@)),
    {
        let lines = split_lines(buf);
        TofuTable::from_lines(&lines)
    }

    /// The text form of the table: each saved line followed by `\n`. Reading it back gives
    /// the same table.
    pub fn write(&self) -> (text: String)
        ensures
            text@ == spec_join_lines(spec_saved_lines(self.pairs())),
            spec_load(spec_lines(text@)) == self@,
    {
        let lines = self.lines();
        let text = join_lines(&lines);
        proof {
            let ls = strings_view(lines@);
            assert forall|i: int| 0 <= i < ls.len() implies plain_line(#[trigger] ls[i]) by {
                assert(ls[i] == lines@[i]@);
            }
            law_lines_of_joined(ls);
            assert forall|i: int| 0 <= i < ls.len() implies spec_parse_tofu_line(#[trigger] ls[i])
                == Some(self.pairs()[i]) by {
                assert(ls[i] == lines@[i]@);
            }
            law_load_of_saved(ls, self.pairs());
        }
        text
    }
}


// ---------------------------------------------------------------------------
// Laws of the table
// ---------------------------------------------------------------------------

/// Checking or recording never forgets a key and never lowers a sequence number.
pub proof fn law_table_grows(m: Map<Seq<u8>, u64>, key: Seq<u8>, seq: u64)
    ensures
        table_grows(m, spec_check(m, key, seq).0),
        table_grows(m, spec_insert(m, key, seq).0),
{
}

/// A replayed message is refused: once `seq` has been accepted for a key, checking the same
/// or any lower number for that key gives `Some(false)` and changes nothing.
pub proof fn law_replay_refused(m: Map<Seq<u8>, u64>, key: Seq<u8>, seq: u64, replay: u64)
    requires
        spec_check(m, key, seq).1 == Some(true),
        replay <= seq,
    ensures
        spec_check(spec_check(m, key, seq).0, key, replay) == (spec_check(m, key, seq).0, Some(false)),
{
}

/// Recording the number that a check has just accepted changes nothing more.
pub proof fn law_insert_after_check(m: Map<Seq<u8>, u64>, key: Seq<u8>, seq: u64)
    requires
        spec_check(m, key, seq).1 == Some(true),
    ensures
        spec_insert(spec_check(m, key, seq).0, key, seq) == (spec_check(m, key, seq).0, false),
{
}

/// Once a key has been recorded it is known: later checks for it never report it unknown.
pub proof fn law_recorded_key_known(m: Map<Seq<u8>, u64>, key: Seq<u8>, seq: u64, later: u64)
    ensures
        spec_check(spec_insert(m, key, seq).0, key, later).1 is Some,
{
}

/// Two numbers accepted one after the other for the same key increase strictly.
pub proof fn law_accepted_numbers_increase(m: Map<Seq<u8>, u64>, key: Seq<u8>, first: u64, second: u64)
    requires
        spec_insert(m, key, first).1,
        spec_insert(spec_insert(m, key, first).0, key, second).1,
    ensures
        first < second,
{
}

/// Trusting a known key again (with sequence number 0) changes nothing.
pub proof fn law_trust_known_key(m: Map<Seq<u8>, u64>, key: Seq<u8>)
    requires
        m.contains_key(key),
    ensures
        spec_insert(m, key, 0) == (m, false),
{
}

/// A message that a client encrypted for this server reaches it as the text it was sent with:
/// trusted when the client's key is known and the number is above the last one (which is then
/// recorded), waiting for the user when the key is unknown, refused otherwise.
pub proof fn law_receive_encrypted(m: Map<Seq<u8>, u64>, msg: Seq<u8>, key: Seq<u8>, client: Seq<u8>, seq: u64, text: Seq<char>)
    requires
        spec_decrypt_client_message(msg, key) == Ok::<(Seq<u8>, u64, Seq<u8>), crate::crypto::ErrorKind>(
            (client, seq, vstd::utf8::encode_utf8(text)),
        ),
    ensures
        spec_receive(m, msg, key) == (if m.contains_key(client) {
            if m[client] < seq {
                (m.insert(client, seq), Delivery::Trusted(text))
            } else {
                (m, Delivery::Refused)
            }
        } else {
            (m, Delivery::Untrusted(client, seq, text))
        }),
{
    vstd::utf8::encode_utf8_valid_utf8(text);
    vstd::utf8::encode_utf8_decode_utf8(text);
}

/// A message that has been delivered as trusted is refused when it arrives again, and the
/// table does not change.
pub proof fn law_replayed_message_refused(m: Map<Seq<u8>, u64>, msg: Seq<u8>, key: Seq<u8>)
    requires
        spec_receive(m, msg, key).1 is Trusted,
    ensures
        spec_receive(spec_receive(m, msg, key).0, msg, key) == (spec_receive(m, msg, key).0, Delivery::Refused),
{
}

// ---------------------------------------------------------------------------
// Trust on first use, over a storage
// ---------------------------------------------------------------------------

/// Trust-on-first-use state of a server: the storage it is saved to and the table of trusted
/// client keys.
pub struct Tofu<S> {
    storage: S,
    allowed: TofuTable,
}

impl<S> Tofu<S> {
    pub closed spec fn table(self) -> TofuTable {
        self.allowed
    }

    pub closed spec fn spec_storage(self) -> S {
        self.storage
    }
}

impl<S> View for Tofu<S> {
    type V = Map<Seq<u8>, u64>;

    open spec fn view(&self) -> Map<Seq<u8>, u64> {
        self.table()@
    }
}

/// A message from a client whose key is not trusted yet, kept until the user decides.
pub struct UntrustedEntry {
    message: String,
    pub key: Pubkey,
    seq: u64,
}

impl UntrustedEntry {
    /// The message text.
    pub closed spec fn spec_message(self) -> Seq<char> {
        self.message@
    }

    /// The message's sequence number.
    pub closed spec fn spec_seq(self) -> u64 {
        self.seq
    }

    /// The sender's key: the field `key` (see `key`, which reads it).
    pub closed spec fn spec_key(self) -> Pubkey {
        self.key
    }
}

/// A decrypted message: from a trusted client, or waiting for the user to trust its sender.
pub enum TofuEntry {
    Trusted(String),
    Untrusted(UntrustedEntry),
}

/// What the server makes of a message, as plain values.
pub enum Delivery {
    /// Text from a trusted client with a fresh sequence number.
    Trusted(Seq<char>),
    /// Text from an unknown client key, with its sequence number.
    Untrusted(Seq<u8>, u64, Seq<char>),
    /// Undecryptable, stale, or not UTF-8.
    Refused,
}

pub open spec fn entry_view(r: Result<TofuEntry, ()>) -> Delivery {
    match r {
        Ok(TofuEntry::Trusted(s)) => Delivery::Trusted(s@),
        Ok(TofuEntry::Untrusted(e)) => Delivery::Untrusted(e.spec_key()@, e.spec_seq(), e.spec_message()),
        Err(_) => Delivery::Refused,
    }
}

/// Receiving a message with the server key `key` against table `m`: the next table and the
/// delivery. A trusted key's number is recorded when it is fresh, even if the text then turns
/// out not to be UTF-8.
pub open spec fn spec_receive(m: Map<Seq<u8>, u64>, msg: Seq<u8>, key: Seq<u8>) -> (Map<Seq<u8>, u64>, Delivery) {
    match spec_decrypt_client_message(msg, key) {
        Err(_) => (m, Delivery::Refused),
        Ok((ck, seq, data)) => {
            let (m2, c) = spec_check(m, ck, seq);
            (
                m2,
                match c {
                    Some(true) => if vstd::utf8::valid_utf8(data) {
                        Delivery::Trusted(vstd::utf8::decode_utf8(data))
                    } else {
                        Delivery::Refused
                    },
                    Some(false) => Delivery::Refused,
                    None => if vstd::utf8::valid_utf8(data) {
                        Delivery::Untrusted(ck, seq, vstd::utf8::decode_utf8(data))
                    } else {
                        Delivery::Refused
                    },
                },
            )
        },
    }
}

/// What checking a received message does to a table `before`, leaving it `after`: no
/// result where the decrypted payload is too short to hold a sequence number (and the table
/// unchanged), otherwise the delivery of `spec_receive`.
pub open spec fn message_checked(
    before: Map<Seq<u8>, u64>,
    after: Map<Seq<u8>, u64>,
    msg: Seq<u8>,
    key: Seq<u8>,
    r: Option<Result<TofuEntry, ()>>,
) -> bool {
    &&& (r is None <==> !client_payload_fits(msg, key))
    &&& (r is None ==> after == before)
    &&& (r matches Some(res) ==> (after, entry_view(res)) == spec_receive(before, msg, key))
}

impl<S> Tofu<S> {
    /// A state over `storage` whose table is loaded from saved lines.
    pub fn from_lines(storage: S, lines: &Vec<String>) -> (t: Tofu<S>)
        ensures
            t@ == spec_load(strings_view(lines@)),
            t.spec_storage() == storage,
    {
        Tofu { storage, allowed: TofuTable::from_lines(lines) }
    }

    /// The records to save, one per trusted key: its saved line followed by `\n`.
    pub fn save_lines(&self) -> (records: Vec<String>)
        ensures
            distinct_keys(self.table().pairs()),
            records@.len() == self.table().pairs().len(),
            records@.len() == self@.len(),
            strings_view(records@) == spec_saved_records(self.table().pairs()),
    {
        proof {
            use_type_invariant(&self.allowed);
            lemma_pairs_len(self.table().pairs());
        }
        let es = &self.allowed.entries;
        let mut out: Vec<String> = Vec::new();
        let n = es.len();
        for i in 0..n
            invariant
                n == es@.len(),
                self.table().pairs() == entries_view(es@),
                out@.len() == i,
                strings_view(out@) == spec_saved_records(self.table().pairs()).take(i as int),
        {
            let mut r = render_tofu_line(&es[i].0, es[i].1);
            push_char(&mut r, '\n');
            proof {
                let ps = self.table().pairs();
                let recs = spec_saved_records(ps);
                assert(ps[i as int] == (es@[i as int].0@, es@[i as int].1));
                assert(recs[i as int] == r@);
                let v = out@.push(r);
                let w = strings_view(v);
                assert forall|k: int| 0 <= k < i + 1 implies #[trigger] w[k] == recs.take(i + 1)[k] by {
                    assert(w[k] == v[k]@);
                    if k < i {
                        assert(v[k] == out@[k]);
                        assert(strings_view(out@)[k] == out@[k]@);
                    }
                }
                assert(w =~= recs.take(i + 1));
            }
            out.push(r);
        }
        proof {
            assert(spec_saved_records(self.table().pairs()).take(n as int) =~= spec_saved_records(
                self.table().pairs(),
            ));
        }
        out
    }

    /// The storage, for saving.
    pub fn storage_mut(&mut self) -> (s: &mut S)
        ensures
            *s == old(self).spec_storage(),
            final(self).spec_storage() == *final(s),
            final(self).table() == old(self).table(),
    {
        &mut self.storage
    }

    /// The table of trusted keys.
    pub fn allowed(&self) -> (t: &TofuTable)
        ensures
            *t == self.table(),
    {
        &self.allowed
    }

    /// Checks `seq` for `key`: `Some(true)` when the key is trusted and `seq` is above the
    /// last number seen (which is then recorded), `Some(false)` when the key is trusted and
    /// `seq` is not, `None` for an unknown key.
    pub(crate) fn check(&mut self, key: &Pubkey, seq: u64) -> (r: Option<bool>)
        ensures
            (final(self)@, r) == spec_check(old(self)@, key@, seq),
            final(self).spec_storage() == old(self).spec_storage(),
    {
        self.allowed.check(key, seq)
    }

    /// Records `seq` for `key` when the key is new or `seq` is higher than the last number.
    pub(crate) fn insert(&mut self, key: Pubkey, seq: u64) -> (accepted: bool)
        ensures
            (final(self)@, accepted) == spec_insert(old(self)@, key@, seq),
            final(self).spec_storage() == old(self).spec_storage(),
    {
        self.allowed.insert(key, seq)
    }

    /// Decrypts a client message with the server key and sorts it by the trust table:
    /// `Trusted` for a trusted key with a fresh sequence number, `Untrusted` for an unknown
    /// key; `Err` when decryption fails, the number is stale or the text is not UTF-8.
    pub fn decrypt_message(&mut self, key: &Key, msg: &[u8]) -> (r: Result<TofuEntry, ()>)
        requires
            client_payload_fits(msg@, key@),
        ensures
            final(self).spec_storage() == old(self).spec_storage(),
            (final(self)@, entry_view(r)) == spec_receive(old(self)@, msg@, key@),
    {
        let d = decrypt_client_message(msg, *key);
        self.sort_decrypted(key, msg, d)
    }

    /// Sorts the decryption `d` of `msg` by the trust table, as `decrypt_message` describes.
    fn sort_decrypted(
        &mut self,
        key: &Key,
        msg: &[u8],
        d: Result<(Pubkey, u64, Vec<u8>), crate::crypto::ErrorKind>,
    ) -> (r: Result<TofuEntry, ()>)
        requires
            match spec_decrypt_client_message(msg@, key@) {
                Ok((k, s, data)) => d matches Ok((k2, s2, d2)) && k2@ == k && s2 == s && d2@ == data,
                Err(e) => d matches Err(e2) && e2 == e,
            },
        ensures
            final(self).spec_storage() == old(self).spec_storage(),
            (final(self)@, entry_view(r)) == spec_receive(old(self)@, msg@, key@),
    {
        match d {
            Ok((client_key, seq, dec_msg)) => {
                match self.check(&client_key, seq) {
                    Some(true) => match string_from_utf8(dec_msg) {
                        Some(s) => Ok(TofuEntry::Trusted(s)),
                        None => Err(()),
                    },
                    Some(false) => Err(()),
                    None => match string_from_utf8(dec_msg) {
                        Some(message) => Ok(
                            TofuEntry::Untrusted(UntrustedEntry { message, key: client_key, seq }),
                        ),
                        None => Err(()),
                    },
                }
            },
            Err(_) => Err(()),
        }
    }

    /// `decrypt_message` for any input: `None` where the decrypted payload is too short to
    /// hold a sequence number, and the table unchanged. The message is decrypted once.
    pub fn checked_decrypt_message(&mut self, key: &Key, msg: &[u8]) -> (r: Option<
        Result<TofuEntry, ()>,
    >)
        ensures
            message_checked(old(self)@, final(self)@, msg@, key@, r),
            final(self).spec_storage() == old(self).spec_storage(),
    {
        match crate::crypto::checked_decrypt_client_message(msg, *key) {
            None => None,
            Some(d) => Some(self.sort_decrypted(key, msg, d)),
        }
    }

    /// Takes a frame that the relay has passed on: it is decrypted with the relay
    /// connection's cipher `c`, and a frame that does not decrypt gives `None`, is skipped
    /// and changes nothing. Otherwise the cipher's nonce moves on, and the result is `Some`
    /// of what `checked_decrypt_message` gives on the decrypted bytes.
    pub fn receive_relayed_message(&mut self, c: &mut RelayCipher, key: &Key, msg: &[u8]) -> (r:
        Option<Option<Result<TofuEntry, ()>>>)
        requires
            old(c).nonce < u64::MAX,
        ensures
            final(self).spec_storage() == old(self).spec_storage(),
            final(c).key == old(c).key,
            match spec_relay_open(old(c).key@, old(c).nonce, msg@) {
                None => r is None && final(self)@ == old(self)@ && final(c).nonce == old(c).nonce,
                Some(p) => final(c).nonce == old(c).nonce + 1 && (r matches Some(x)
                    && message_checked(old(self)@, final(self)@, p, key@, x)),
            },
    {
        match c.decrypt(msg) {
            None => None,
            Some(p) => Some(self.checked_decrypt_message(key, p.as_slice())),
        }
    }

    /// Marks a key as trusted, with sequence number 0 if it is new.
    pub fn trust(&mut self, key: Pubkey)
        ensures
            final(self)@ == spec_insert(old(self)@, key@, 0).0,
            final(self).spec_storage() == old(self).spec_storage(),
    {
        self.insert(key, 0);
    }
}

impl UntrustedEntry {
    /// Trusts the sender and records the message's sequence number; the message is given
    /// back when the number was accepted.
    pub fn trust<S>(self, tofu: &mut Tofu<S>) -> (r: Option<String>)
        ensures
            final(tofu)@ == spec_insert(old(tofu)@, self.spec_key()@, self.spec_seq()).0,
            final(tofu).spec_storage() == old(tofu).spec_storage(),
            match r {
                Some(m) => spec_insert(old(tofu)@, self.spec_key()@, self.spec_seq()).1 && m@
                    == self.spec_message(),
                None => !spec_insert(old(tofu)@, self.spec_key()@, self.spec_seq()).1,
            },
    {
        if tofu.insert(self.key, self.seq) {
            Some(self.message)
        } else {
            None
        }
    }

    /// Checks the entry again, for when its sender has been trusted in the meantime:
    /// `Err` gives the entry back while the key is still unknown; otherwise the message when
    /// its sequence number is fresh, `None` when it is stale.
    pub fn check<S>(self, tofu: &mut Tofu<S>) -> (r: Result<Option<String>, UntrustedEntry>)
        ensures
            final(tofu)@ == spec_check(old(tofu)@, self.spec_key()@, self.spec_seq()).0,
            final(tofu).spec_storage() == old(tofu).spec_storage(),
            match spec_check(old(tofu)@, self.spec_key()@, self.spec_seq()).1 {
                None => r matches Err(e) && e == self,
                Some(true) => r matches Ok(Some(m)) && m@ == self.spec_message(),
                Some(false) => r matches Ok(None),
            },
    {
        if let Some(valid) = tofu.check(&self.key, self.seq) {
            if valid {
                proof {
                    law_insert_after_check(old(tofu)@, self.spec_key()@, self.seq);
                }
                tofu.insert(self.key, self.seq);
                Ok(Some(self.message))
            } else {
                Ok(None)
            }
        } else {
            Err(self)
        }
    }

    /// The sender's key, the value of the public field `key`.
    pub fn key(&self) -> (k: &Pubkey)
        ensures
            *k == self.spec_key(),
    {
        &self.key
    }

    /// The message text.
    pub fn peek(&self) -> (m: &str)
        ensures
            m@ == self.spec_message(),
    {
        self.message.as_str()
    }
}


/// What a browser client makes of a message that the relay has passed on.
pub enum ClientMessage {
    /// The sequence number was fresh and has been recorded; the text, `None` when the bytes
    /// are not UTF-8.
    Accepted(Option<String>),
    /// The sender is known and the sequence number is not above the last one.
    StaleSequence,
    /// The message could not be decrypted.
    Unreadable,
}

/// What receiving a decrypted client message does to a table `before`, leaving it `after`:
/// no result where the decrypted payload is too short to hold a sequence number (and the
/// table unchanged); `Unreadable` where it does not decrypt; otherwise the sender's sequence
/// number is recorded as `spec_insert` does, and the text is given when it is accepted.
pub open spec fn client_message_received(
    before: Map<Seq<u8>, u64>,
    after: Map<Seq<u8>, u64>,
    msg: Seq<u8>,
    key: Seq<u8>,
    r: Option<ClientMessage>,
) -> bool {
    &&& (r is None <==> !client_payload_fits(msg, key))
    &&& (r is None ==> after == before)
    &&& (r is Some ==> match spec_decrypt_client_message(msg, key) {
        Err(_) => r matches Some(ClientMessage::Unreadable) && after == before,
        Ok((ck, seq, data)) => {
            &&& after == spec_insert(before, ck, seq).0
            &&& if spec_insert(before, ck, seq).1 {
                r matches Some(ClientMessage::Accepted(t)) && (t is Some
                    <==> vstd::utf8::valid_utf8(data)) && (t matches Some(s) ==> s@
                    == vstd::utf8::decode_utf8(data))
            } else {
                r matches Some(ClientMessage::StaleSequence)
            }
        },
    })
}

impl TofuTable {
    /// Decrypts a relayed client message and records its sequence number, trusting a new
    /// sender on first use. `None` where the decrypted payload is too short to hold a
    /// sequence number, with the table unchanged.
    pub fn receive_client_message(&mut self, key: &Key, msg: &[u8]) -> (r: Option<ClientMessage>)
        ensures
            client_message_received(old(self)@, final(self)@, msg@, key@, r),
    {
        match crate::crypto::checked_decrypt_client_message(msg, *key) {
            None => None,
            Some(Err(_)) => Some(ClientMessage::Unreadable),
            Some(Ok((client_key, seq, data))) => {
                if self.insert(client_key, seq) {
                    Some(ClientMessage::Accepted(string_from_utf8(data)))
                } else {
                    Some(ClientMessage::StaleSequence)
                }
            },
        }
    }

    /// Takes a frame that the relay has passed on: it is decrypted with the relay
    /// connection's cipher `c`, and a frame that does not decrypt gives `None` and changes
    /// nothing. Otherwise the cipher's nonce moves on, and the result is what
    /// `receive_client_message` gives on the decrypted bytes.
    pub fn receive_relayed_message(&mut self, c: &mut RelayCipher, key: &Key, msg: &[u8]) -> (r:
        Option<ClientMessage>)
        requires
            old(c).nonce < u64::MAX,
        ensures
            final(c).key == old(c).key,
            match spec_relay_open(old(c).key@, old(c).nonce, msg@) {
                None => r is None && final(self)@ == old(self)@ && final(c).nonce == old(c).nonce,
                Some(p) => final(c).nonce == old(c).nonce + 1 && client_message_received(
                    old(self)@,
                    final(self)@,
                    p,
                    key@,
                    r,
                ),
            },
    {
        match c.decrypt(msg) {
            None => None,
            Some(p) => self.receive_client_message(key, p.as_slice()),
        }
    }
}

} // verus!
