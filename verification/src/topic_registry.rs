//! The topic registry: topic names and the 16-bit topic ids that stand for
//! them on the wire.
//!
//! Ids are given out from 1 upwards, one per name, and never taken back.
//! The ids 0 and 0xFFFF are reserved.
use crate::biset::{name_map_get, name_map_insert, name_map_new, name_map_rev_get, name_pairs};
use crate::error::BrokerError;
use bisetmap::BisetMap;
use vstd::prelude::*;

verus! {

pub type TopicIdType = u16;

/// The first topic id that is given out.
pub const TOPIC_ID_FIRST: TopicIdType = 1;

/// The reserved id above all that are given out.
pub const TOPIC_ID_END: TopicIdType = 0xFFFF;

/// Whether an id has a name among the pairs.
pub open spec fn has_name(pairs: Set<(Seq<char>, TopicIdType)>, id: TopicIdType) -> bool {
    exists|n: Seq<char>| pairs.contains((n, id))
}

/// The names and the ids from 1 up to `next` correspond one to one.
pub open spec fn names_wf(pairs: Set<(Seq<char>, TopicIdType)>, next: TopicIdType) -> bool {
    &&& TOPIC_ID_FIRST <= next <= TOPIC_ID_END
    &&& forall|n: Seq<char>, id: TopicIdType| #[trigger]
        pairs.contains((n, id)) ==> TOPIC_ID_FIRST <= id < next
    &&& forall|n: Seq<char>, id1: TopicIdType, id2: TopicIdType|
        #[trigger] pairs.contains((n, id1)) && #[trigger] pairs.contains((n, id2)) ==> id1 == id2
    &&& forall|n1: Seq<char>, n2: Seq<char>, id: TopicIdType|
        #[trigger] pairs.contains((n1, id)) && #[trigger] pairs.contains((n2, id)) ==> n1 == n2
    &&& forall|id: TopicIdType| TOPIC_ID_FIRST <= id < next ==> #[trigger] has_name(pairs, id)
}

/// Topic names and their ids, found from either side.
pub struct TopicRegistry {
    names: BisetMap<String, TopicIdType>,
    next_id: TopicIdType,
}

impl TopicRegistry {
    /// The registered pairs of name and id.
    pub closed spec fn pairs(&self) -> Set<(Seq<char>, TopicIdType)> {
        name_pairs(self.names)
    }

    /// The id that the next new name gets.
    pub closed spec fn next(&self) -> TopicIdType {
        self.next_id
    }

    /// Whether the name has an id.
    pub open spec fn knows(&self, name: Seq<char>) -> bool {
        exists|id: TopicIdType| self.pairs().contains((name, id))
    }

    /// The names and the ids from 1 up to the next one correspond one to one.
    pub open spec fn wf(&self) -> bool {
        names_wf(self.pairs(), self.next())
    }

    /// Whether the id has a name.
    pub open spec fn names(&self, id: TopicIdType) -> bool {
        has_name(self.pairs(), id)
    }

    /// A registry without names.
    pub fn new() -> (r: TopicRegistry)
        ensures
            r.wf(),
            r.pairs() == Set::<(Seq<char>, TopicIdType)>::empty(),
            r.next() == TOPIC_ID_FIRST,
    {
        TopicRegistry { names: name_map_new(), next_id: TOPIC_ID_FIRST }
    }

    /// The id of a name, if it has one.
    pub fn topic_id_of(&self, topic_name: &String) -> (r: Option<TopicIdType>)
        ensures
            r is Some <==> self.knows(topic_name@),
            r matches Some(id) ==> self.pairs().contains((topic_name@, id)),
    {
        let ids = name_map_get(&self.names, topic_name);
        if ids.len() == 0 {
            assert forall|id: TopicIdType| !self.pairs().contains((topic_name@, id)) by {
                assert(!ids@.contains(id));
            }
            None
        } else {
            assert(ids@.contains(ids@[0]));
            assert(self.pairs().contains((topic_name@, ids@[0])));
            Some(ids[0])
        }
    }

    /// The name of an id, if it has one.
    pub fn topic_name_of(&self, topic_id: TopicIdType) -> (r: Option<String>)
        ensures
            r is Some <==> self.names(topic_id),
            r matches Some(name) ==> self.pairs().contains((name@, topic_id)),
    {
        let names = name_map_rev_get(&self.names, &topic_id);
        if names.len() == 0 {
            None
        } else {
            let name = names[0].clone();
            assert(self.pairs().contains((names@[0]@, topic_id)));
            Some(name)
        }
    }
}

/// The id of a topic name: the one it has, or else the next free one, which
/// the name then keeps. Fails, and registers nothing, where the name is new
/// and every id has been given out.
pub fn try_insert_topic_name(names: &mut TopicRegistry, topic_name: String) -> (r: Result<
    TopicIdType,
    BrokerError,
>)
    requires
        old(names).wf(),
    ensures
        final(names).wf(),
        match r {
            Ok(id) => {
                &&& final(names).pairs().contains((topic_name@, id))
                &&& if old(names).knows(topic_name@) {
                    &&& final(names).pairs() == old(names).pairs()
                    &&& final(names).next() == old(names).next()
                } else {
                    &&& id == old(names).next()
                    &&& final(names).pairs() == old(names).pairs().insert((topic_name@, id))
                    &&& final(names).next() == old(names).next() + 1
                }
            },
            Err(e) => {
                &&& e == BrokerError::TopicIdsExhausted
                &&& !old(names).knows(topic_name@)
                &&& old(names).next() == TOPIC_ID_END
                &&& *final(names) == *old(names)
            },
        },
{
    match names.topic_id_of(&topic_name) {
        Some(id) => Ok(id),
        None => {
            if names.next_id == TOPIC_ID_END {
                return Err(BrokerError::TopicIdsExhausted);
            }
            let id = names.next_id;
            let ghost before = names.pairs();
            name_map_insert(&mut names.names, topic_name, id);
            names.next_id = id + 1;
            proof {
                let after = names.pairs();
                assert forall|i: TopicIdType|
                    TOPIC_ID_FIRST <= i < names.next() implies #[trigger] has_name(after, i) by {
                    if i == id {
                        assert(after.contains((topic_name@, i)));
                    } else {
                        assert(has_name(before, i));
                        let n = choose|n: Seq<char>| before.contains((n, i));
                        assert(after.contains((n, i)));
                    }
                }
                assert forall|n: Seq<char>, id1: TopicIdType, id2: TopicIdType|
                    #[trigger] after.contains((n, id1)) && #[trigger] after.contains(
                        (n, id2),
                    ) implies id1 == id2 by {
                    if n == topic_name@ {
                        assert(!old(names).knows(n));
                    }
                }
            }
            Ok(id)
        },
    }
}

} // verus!
