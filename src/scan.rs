//! The nesting of an event stream, read from its start and end events alone.
use vstd::prelude::*;
use crate::model::{Event, TagKind, is_block_kind, tag_kind_of};

verus! {

/// What the nesting of a stream's prefix shows: the kinds still open, from
/// the outermost, and the kinds of the blocks closed at the top level, in order.
pub struct Nesting {
    pub open: Seq<TagKind>,
    pub top: Seq<TagKind>,
}

/// One event applied to the nesting; `None` when an end event does not match
/// the innermost open construct.
pub open spec fn nest_step(n: Nesting, e: Event) -> Option<Nesting> {
    match e {
        Event::Start(t) => Some(Nesting { open: n.open.push(tag_kind_of(t)), top: n.top }),
        Event::End(t) => {
            if n.open.len() > 0 && n.open.last() == tag_kind_of(t) {
                let rest = n.open.drop_last();
                let k = tag_kind_of(t);
                Some(Nesting { open: rest, top: if rest.len() == 0 && is_block_kind(k) { n.top.push(k) } else { n.top } })
            } else {
                None
            }
        },
        _ => Some(n),
    }
}

/// The nesting after the events `evs`, starting from `n`; `None` once an
/// end event has failed to match.
pub open spec fn nest_from(n: Nesting, evs: Seq<Event>) -> Option<Nesting>
    decreases evs.len(),
{
    if evs.len() == 0 {
        Some(n)
    } else {
        match nest_from(n, evs.drop_last()) {
            None => None,
            Some(m) => nest_step(m, evs.last()),
        }
    }
}

/// The nesting of a stream read from its start.
pub open spec fn nesting(evs: Seq<Event>) -> Option<Nesting> {
    nest_from(Nesting { open: seq![], top: seq![] }, evs)
}

/// Every construct is closed by a matching end event, innermost first.
pub open spec fn balanced(evs: Seq<Event>) -> bool {
    nesting(evs) matches Some(n) && n.open.len() == 0
}

/// The stream asks for no characters to be taken back by an entity link.
pub open spec fn no_trims(evs: Seq<Event>) -> bool {
    forall|i: int| 0 <= i < evs.len() ==> !(#[trigger] evs[i] matches Event::Start(
        crate::model::Tag::EntityLink(_, _, t),
    ) && t > 0)
}

/// The kinds of the block constructs whose start events stand at the top
/// level of the stream, in the order of those start events.
pub open spec fn opened_at_top(evs: Seq<Event>) -> Seq<TagKind>
    decreases evs.len(),
{
    if evs.len() == 0 {
        seq![]
    } else {
        let before = opened_at_top(evs.drop_last());
        match evs.last() {
            Event::Start(t) => {
                if nesting(evs.drop_last()) matches Some(n) && n.open.len() == 0 && is_block_kind(
                    tag_kind_of(t),
                ) {
                    before.push(tag_kind_of(t))
                } else {
                    before
                }
            },
            _ => before,
        }
    }
}

/// The outermost open construct, if it will become a block.
pub open spec fn open_block(n: Nesting) -> Seq<TagKind> {
    if n.open.len() > 0 && is_block_kind(n.open[0]) {
        seq![n.open[0]]
    } else {
        seq![]
    }
}

proof fn lemma_opened_at_top(evs: Seq<Event>)
    requires
        nesting(evs) is Some,
    ensures
        nesting(evs) matches Some(n) && opened_at_top(evs) == n.top + open_block(n),
    decreases evs.len(),
{
    if evs.len() == 0 {
        assert(opened_at_top(evs) =~= Seq::<TagKind>::empty() + seq![]);
    } else {
        let init = evs.drop_last();
        assert(nesting(init) is Some);
        lemma_opened_at_top(init);
        let n = nesting(init)->0;
        let m = nesting(evs)->0;
        match evs.last() {
            Event::Start(t) => {
                if n.open.len() == 0 {
                    assert(m.open =~= seq![tag_kind_of(t)]);
                    assert(opened_at_top(evs) =~= m.top + open_block(m));
                } else {
                    assert(m.open[0] == n.open[0]);
                    assert(opened_at_top(evs) =~= m.top + open_block(m));
                }
            },
            Event::End(t) => {
                let rest = n.open.drop_last();
                if rest.len() == 0 {
                    assert(n.open =~= seq![tag_kind_of(t)]);
                    assert(opened_at_top(evs) =~= m.top + open_block(m));
                } else {
                    assert(rest[0] == n.open[0]);
                    assert(opened_at_top(evs) =~= m.top + open_block(m));
                }
            },
            _ => {},
        }
    }
}

/// In a balanced stream, the blocks finished at the top level are, in order,
/// the block constructs whose start events stand at the top level.
pub proof fn lemma_blocks_follow_starts(evs: Seq<Event>)
    requires
        balanced(evs),
    ensures
        nesting(evs) matches Some(n) && n.top == opened_at_top(evs),
{
    lemma_opened_at_top(evs);
    let n = nesting(evs)->0;
    assert(open_block(n) =~= Seq::<TagKind>::empty());
    assert(n.top + open_block(n) =~= n.top);
}

} // verus!
