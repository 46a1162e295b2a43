//! Footnote numbers, assigned from 1 in the order in which names are first seen.
use vstd::prelude::*;

verus! {

/// Index of the first occurrence of `name` in `names`, or -1.
pub open spec fn position(names: Seq<Seq<char>>, name: Seq<char>) -> int
    decreases names.len(),
{
    if names.len() == 0 {
        -1
    } else if position(names.drop_last(), name) >= 0 {
        position(names.drop_last(), name)
    } else if names.last() == name {
        names.len() - 1
    } else {
        -1
    }
}

/// The names after `name` has been seen: new names go to the end.
pub open spec fn registered(names: Seq<Seq<char>>, name: Seq<char>) -> Seq<Seq<char>> {
    if position(names, name) >= 0 {
        names
    } else {
        names.push(name)
    }
}

/// The number of `name` once it has been seen.
pub open spec fn number_of(names: Seq<Seq<char>>, name: Seq<char>) -> int {
    position(registered(names, name), name) + 1
}

proof fn lemma_position_bounds(names: Seq<Seq<char>>, name: Seq<char>)
    ensures
        -1 <= position(names, name) < names.len(),
        position(names, name) >= 0 ==> names[position(names, name)] == name,
    decreases names.len(),
{
    if names.len() > 0 {
        lemma_position_bounds(names.drop_last(), name);
    }
}

proof fn lemma_position_push(names: Seq<Seq<char>>, name: Seq<char>, other: Seq<char>)
    ensures
        position(names, name) >= 0 ==> position(names.push(other), name) == position(names, name),
        position(names, name) < 0 && other == name ==> position(names.push(other), name) == names.len(),
{
    assert(names.push(other).drop_last() =~= names);
}

/// Seeing a name again changes nothing, a name keeps its number whatever
/// other names are seen later, and a name seen first gets the number after
/// those already given.
pub proof fn lemma_numbering_stable(names: Seq<Seq<char>>, a: Seq<char>, b: Seq<char>)
    ensures
        registered(registered(names, a), a) == registered(names, a),
        number_of(registered(names, a), a) == number_of(names, a),
        position(names, a) >= 0 ==> number_of(registered(names, b), a) == number_of(names, a),
        position(names, a) < 0 ==> number_of(names, a) == names.len() + 1,
        position(names, a) >= 0 ==> number_of(names, a) == position(names, a) + 1,
{
    lemma_position_bounds(names, a);
    lemma_position_push(names, a, a);
    lemma_position_push(names, a, b);
    let r = registered(names, a);
    lemma_position_bounds(r, a);
    lemma_position_push(r, a, a);
}

/// Footnote names in the order in which they were first seen.
pub struct FootnoteRegistry {
    pub names: Vec<Vec<char>>,
}

pub open spec fn names_view(v: Seq<Vec<char>>) -> Seq<Seq<char>> {
    v.map_values(|n: Vec<char>| n@)
}

fn same_chars(a: &Vec<char>, b: &Vec<char>) -> (r: bool)
    ensures
        r == (a@ == b@),
{
    if a.len() != b.len() {
        return false;
    }
    let mut i: usize = 0;
    while i < a.len()
        invariant
            0 <= i <= a@.len(),
            a@.len() == b@.len(),
            a@.subrange(0, i as int) == b@.subrange(0, i as int),
        decreases a@.len() - i,
    {
        if a[i] != b[i] {
            assert(a@[i as int] != b@[i as int]);
            return false;
        }
        assert(a@.subrange(0, i + 1) =~= a@.subrange(0, i as int).push(a@[i as int]));
        assert(b@.subrange(0, i + 1) =~= b@.subrange(0, i as int).push(b@[i as int]));
        i = i + 1;
    }
    assert(a@ =~= a@.subrange(0, i as int));
    assert(b@ =~= b@.subrange(0, i as int));
    true
}

impl FootnoteRegistry {
    pub open spec fn view_names(&self) -> Seq<Seq<char>> {
        names_view(self.names@)
    }

    pub fn new() -> (r: FootnoteRegistry)
        ensures
            r.view_names().len() == 0,
    {
        FootnoteRegistry { names: Vec::new() }
    }

    /// The number of a footnote name, given now if the name is new.
    pub fn number_for(&mut self, name: &Vec<char>) -> (r: usize)
        ensures
            final(self).view_names() == registered(old(self).view_names(), name@),
            r == number_of(old(self).view_names(), name@),
            r >= 1,
    {
        let ghost names = self.view_names();
        let mut i: usize = 0;
        while i < self.names.len()
            invariant
                0 <= i <= self.names@.len(),
                names == self.view_names(),
                *self == *old(self),
                position(names.subrange(0, i as int), name@) < 0,
            decreases self.names@.len() - i,
        {
            let ghost pre = names.subrange(0, i as int);
            let ghost post = names.subrange(0, i + 1);
            proof {
                assert(post.drop_last() =~= pre);
            }
            if same_chars(&self.names[i], name) {
                proof {
                    assert(post.last() == name@);
                    assert(position(post, name@) == i);
                    lemma_position_push_prefix(names, name@, i as int);
                }
                return i + 1;
            }
            i = i + 1;
        }
        proof {
            assert(names.subrange(0, i as int) =~= names);
        }
        self.names.push(name.clone());
        proof {
            assert(self.view_names() =~= names.push(name@));
            lemma_position_push(names, name@, name@);
        }
        self.names.len()
    }
}

proof fn lemma_position_push_prefix(names: Seq<Seq<char>>, name: Seq<char>, i: int)
    requires
        0 <= i < names.len(),
        position(names.subrange(0, i + 1), name) == i,
    ensures
        position(names, name) == i,
    decreases names.len(),
{
    if names.len() > i + 1 {
        let init = names.drop_last();
        assert(init.subrange(0, i + 1) =~= names.subrange(0, i + 1));
        lemma_position_push_prefix(init, name, i);
    } else {
        assert(names.subrange(0, i + 1) =~= names);
    }
}

} // verus!
