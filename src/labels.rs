use vstd::prelude::*;

verus! {

/// The address bound to `name` in `entries`; a later entry hides an earlier
/// one of the same name.
pub open spec fn lookup(entries: Seq<(Seq<char>, u8)>, name: Seq<char>) -> Option<u8>
    decreases entries.len(),
{
    if entries.len() == 0 {
        None
    } else if entries.last().0 == name {
        Some(entries.last().1)
    } else {
        lookup(entries.drop_last(), name)
    }
}

/// The mapping from label names to byte addresses, in order of definition.
pub struct LabelTable {
    entries: Vec<(String, u8)>,
}

impl View for LabelTable {
    type V = Seq<(Seq<char>, u8)>;

    closed spec fn view(&self) -> Seq<(Seq<char>, u8)> {
        self.entries@.map_values(|e: (String, u8)| (e.0@, e.1))
    }
}

impl LabelTable {
    pub fn new() -> (r: LabelTable)
        ensures
            r@ == Seq::<(Seq<char>, u8)>::empty(),
    {
        LabelTable { entries: Vec::new() }
    }

    /// Binds `name` to `addr`.
    pub fn insert(&mut self, name: String, addr: u8)
        ensures
            final(self)@ == old(self)@.push((name@, addr)),
    {
        self.entries.push((name, addr));
        assert(self@ =~= old(self)@.push((name@, addr)));
    }

    /// The address bound to `name`, if any.
    pub fn get(&self, name: &String) -> (r: Option<u8>)
        ensures
            r == lookup(self@, name@),
    {
        let mut i: usize = self.entries.len();
        assert(self@.subrange(0, i as int) =~= self@);
        while i > 0
            invariant
                i <= self.entries.len(),
                lookup(self@, name@) == lookup(self@.subrange(0, i as int), name@),
            decreases i,
        {
            let ghost pre = self@.subrange(0, i as int);
            assert(pre.drop_last() =~= self@.subrange(0, i - 1));
            if self.entries[i - 1].0 == *name {
                return Some(self.entries[i - 1].1);
            }
            i = i - 1;
        }
        assert(self@.subrange(0, 0) =~= Seq::<(Seq<char>, u8)>::empty());
        None
    }
}

} // verus!
