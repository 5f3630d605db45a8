//! Local records: the entries read from the block list and the hosts list,
//! and the index that answers address queries from them.

use crate::record::{
    addr_to_record, local_record, parses_as_name, views, IpAddress, RecordType, RecordView,
    ResolvedRecord,
};
use vstd::prelude::*;

verus! {

/// One local record: a fully qualified name and the address it stands for.
#[derive(Debug, PartialEq, Eq)]
pub struct DomainEntry {
    pub name: String,
    pub ip: IpAddress,
}

/// `DomainEntry` as a mathematical value.
pub ghost struct DomainEntryView {
    pub name: Seq<char>,
    pub ip: IpAddress,
}

impl View for DomainEntry {
    type V = DomainEntryView;

    open spec fn view(&self) -> DomainEntryView {
        DomainEntryView { name: self.name@, ip: self.ip }
    }
}

impl Clone for DomainEntry {
    fn clone(&self) -> (copy: Self)
        ensures
            copy@ == self@,
    {
        DomainEntry { name: self.name.clone(), ip: self.ip }
    }
}

/// The views of a run of entries, in order.
pub open spec fn entry_views(entries: Seq<DomainEntry>) -> Seq<DomainEntryView> {
    entries.map_values(|e: DomainEntry| e@)
}

/// The address that a block list maps a blocked name to: `0.0.0.0`.
pub open spec fn sinkhole() -> IpAddress {
    IpAddress::V4(0)
}

/// Tells whether the address is the sinkhole address.
pub fn points_nowhere(ip: &IpAddress) -> (yes: bool)
    ensures
        yes == (*ip == sinkhole()),
{
    match ip {
        IpAddress::V4(bits) => *bits == 0,
        IpAddress::V6(_) => false,
    }
}

/// Holds of the entries that send their name to the sinkhole address.
pub open spec fn is_sinkhole() -> spec_fn(DomainEntryView) -> bool {
    |e: DomainEntryView| e.ip == sinkhole()
}

/// Holds of the entries whose name is a domain name.
pub open spec fn is_named() -> spec_fn(DomainEntryView) -> bool {
    |e: DomainEntryView| parses_as_name(e.name)
}

/// Holds of the entries that answer a query of kind `rt` for `name`: the
/// address is of the family asked for and the name is the same, character for
/// character.
pub open spec fn answers(rt: RecordType, name: Seq<char>) -> spec_fn(DomainEntryView) -> bool {
    |e: DomainEntryView| e.ip.family() == rt && e.name == name
}

/// The answer records that the entries give to a query of kind `rt` for
/// `name`: one for each entry that answers it, in the order of the entries.
pub open spec fn local_answers(
    entries: Seq<DomainEntryView>,
    rt: RecordType,
    name: Seq<char>,
) -> Seq<RecordView> {
    entries.filter(answers(rt, name)).map_values(|e: DomainEntryView| local_record(e.ip, e.name))
}

/// What the index holds for a block list and a hosts list: the sinkhole
/// entries of the block list first, then the hosts list, without the entries
/// whose name is no domain name.
pub open spec fn indexed(block: Seq<DomainEntryView>, hosts: Seq<DomainEntryView>) -> Seq<
    DomainEntryView,
> {
    (block.filter(is_sinkhole()) + hosts).filter(is_named())
}

/// One more entry adds its record to the answers exactly when it answers the
/// query.
proof fn lemma_local_answers_step(
    entries: Seq<DomainEntryView>,
    entry: DomainEntryView,
    rt: RecordType,
    name: Seq<char>,
)
    ensures
        local_answers(entries.push(entry), rt, name) == if answers(rt, name)(entry) {
            local_answers(entries, rt, name).push(local_record(entry.ip, entry.name))
        } else {
            local_answers(entries, rt, name)
        },
{
    entries.lemma_filter_push(entry, answers(rt, name));
    if answers(rt, name)(entry) {
        assert(local_answers(entries.push(entry), rt, name) =~= local_answers(
            entries,
            rt,
            name,
        ).push(local_record(entry.ip, entry.name)));
    }
}

/// Keeps the sinkhole entries of a block list, in their order, and drops the
/// rest.
pub fn load_domain_list(entries: Vec<DomainEntry>) -> (kept: Vec<DomainEntry>)
    ensures
        entry_views(kept@) == entry_views(entries@).filter(is_sinkhole()),
{
    let ghost all = entry_views(entries@);
    let mut kept: Vec<DomainEntry> = Vec::new();
    let mut i: usize = 0;
    proof {
        reveal(Seq::filter);
    }
    while i < entries.len()
        invariant
            i <= entries.len(),
            all == entry_views(entries@),
            entry_views(kept@) == all.take(i as int).filter(is_sinkhole()),
        decreases entries.len() - i,
    {
        proof {
            all.take(i as int).lemma_filter_push(all[i as int], is_sinkhole());
            assert(all.take(i + 1) =~= all.take(i as int).push(all[i as int]));
        }
        if points_nowhere(&entries[i].ip) {
            kept.push(entries[i].clone());
        }
        i += 1;
    }
    proof {
        assert(all.take(i as int) =~= all);
    }
    kept
}

/// The local records, in the order in which they were loaded. Once built the
/// index never changes.
pub struct LocalIndex {
    entries: Vec<DomainEntry>,
}

impl View for LocalIndex {
    type V = Seq<DomainEntryView>;

    closed spec fn view(&self) -> Seq<DomainEntryView> {
        entry_views(self.entries@)
    }
}

impl LocalIndex {
    #[verifier::type_invariant]
    spec fn every_name_parses(&self) -> bool {
        forall|i: int|
            0 <= i < self.entries.len() ==> parses_as_name(#[trigger] self.entries[i].name@)
    }

    /// Builds the index from a list of entries, keeping their order. An entry
    /// of which no record can be made, because its name is no domain name,
    /// could never be answered with, and is left out.
    pub fn new(entries: Vec<DomainEntry>) -> (index: LocalIndex)
        ensures
            index@ == entry_views(entries@).filter(is_named()),
    {
        let ghost all = entry_views(entries@);
        let mut kept: Vec<DomainEntry> = Vec::new();
        let mut i: usize = 0;
        proof {
            reveal(Seq::filter);
        }
        while i < entries.len()
            invariant
                i <= entries.len(),
                all == entry_views(entries@),
                entry_views(kept@) == all.take(i as int).filter(is_named()),
                forall|j: int| 0 <= j < kept.len() ==> parses_as_name(#[trigger] kept[j].name@),
            decreases entries.len() - i,
        {
            proof {
                all.take(i as int).lemma_filter_push(all[i as int], is_named());
                assert(all.take(i + 1) =~= all.take(i as int).push(all[i as int]));
            }
            if addr_to_record(entries[i].ip, entries[i].name.as_str()).is_ok() {
                kept.push(entries[i].clone());
            }
            i += 1;
        }
        proof {
            assert(all.take(i as int) =~= all);
        }
        LocalIndex { entries: kept }
    }

    /// Builds the index from the two sources: the sinkhole entries of the
    /// block list first, then the hosts list.
    pub fn load(block: Vec<DomainEntry>, hosts: Vec<DomainEntry>) -> (index: LocalIndex)
        ensures
            index@ == indexed(entry_views(block@), entry_views(hosts@)),
    {
        let mut all = load_domain_list(block);
        let ghost blocked = all@;
        let mut i: usize = 0;
        while i < hosts.len()
            invariant
                i <= hosts.len(),
                entry_views(all@) == entry_views(blocked) + entry_views(hosts@).take(i as int),
            decreases hosts.len() - i,
        {
            let ghost before = all@;
            all.push(hosts[i].clone());
            assert(entry_views(all@) =~= entry_views(before).push(hosts[i as int]@));
            assert(entry_views(hosts@).take(i + 1) =~= entry_views(hosts@).take(i as int).push(
                hosts[i as int]@,
            ));
            i += 1;
        }
        proof {
            assert(entry_views(hosts@).take(i as int) =~= entry_views(hosts@));
        }
        LocalIndex::new(all)
    }

    /// How many entries the index holds.
    pub fn len(&self) -> (n: usize)
        ensures
            n == self@.len(),
    {
        self.entries.len()
    }

    /// Answers an address query from the local records: one record for each
    /// entry of the family asked for whose name is exactly `name`, in the
    /// order of the entries. A query of any other kind gets no record.
    pub fn resolve_local(&self, rt: &RecordType, name: &str) -> (found: Vec<ResolvedRecord>)
        ensures
            views(found@) == local_answers(self@, *rt, name@),
            !rt.is_address() ==> found@.len() == 0,
    {
        proof {
            use_type_invariant(self);
        }
        let ghost all = self@;
        let wanted = name.to_owned();
        let mut found: Vec<ResolvedRecord> = Vec::new();
        let mut i: usize = 0;
        proof {
            reveal(Seq::filter);
        }
        if !rt.asks_address() {
            proof {
                assert(all.filter(answers(*rt, name@)).len() == 0) by {
                    all.lemma_all_neg_filter_empty(answers(*rt, name@));
                }
            }
            return found;
        }
        while i < self.entries.len()
            invariant
                i <= self.entries.len(),
                all == entry_views(self.entries@),
                wanted@ == name@,
                views(found@) == local_answers(all.take(i as int), *rt, name@),
                forall|j: int|
                    0 <= j < self.entries.len() ==> parses_as_name(
                        #[trigger] self.entries[j].name@,
                    ),
            decreases self.entries.len() - i,
        {
            proof {
                lemma_local_answers_step(all.take(i as int), all[i as int], *rt, name@);
                assert(all.take(i + 1) =~= all.take(i as int).push(all[i as int]));
            }
            let entry = &self.entries[i];
            if entry.ip.record_type() == *rt && entry.name == wanted {
                match addr_to_record(entry.ip, entry.name.as_str()) {
                    Ok(record) => {
                        found.push(record);
                    },
                    Err(_) => {
                        assert(false);
                    },
                }
            }
            i += 1;
        }
        proof {
            assert(all.take(i as int) =~= all);
        }
        found
    }
}

} // verus!
