use vstd::prelude::*;

use crate::text::{push_char, push_text};

verus! {

/// The keys of `items` followed by `current`, joined with `.`.
pub open spec fn joined(items: Seq<Seq<char>>, current: Seq<char>) -> Seq<char>
    decreases items.len(),
{
    if items.len() == 0 {
        current
    } else {
        items[0] + seq!['.'] + joined(items.drop_first(), current)
    }
}

/// The keys without the innermost one; no keys stay none.
pub open spec fn without_last(items: Seq<Seq<char>>) -> Seq<Seq<char>> {
    if items.len() == 0 {
        items
    } else {
        items.drop_last()
    }
}

/// A stack of keys: the path to the place being worked on.
pub struct Hierarchy {
    items: Vec<String>,
}

impl Hierarchy {
    /// The keys, outermost first.
    pub closed spec fn spec_items(&self) -> Seq<Seq<char>> {
        self.items@.map_values(|s: String| s@)
    }

    pub fn new() -> (r: Self)
        ensures
            r.spec_items() == Seq::<Seq<char>>::empty(),
    {
        let r = Hierarchy { items: Vec::new() };
        assert(r.spec_items() =~= Seq::<Seq<char>>::empty());
        r
    }

    /// Enters the key `item`.
    pub fn push(&mut self, item: String)
        ensures
            final(self).spec_items() == old(self).spec_items().push(item@),
    {
        self.items.push(item);
        assert(self.spec_items() =~= old(self).spec_items().push(item@));
    }

    /// Leaves the innermost key.
    pub fn pop(&mut self)
        ensures
            final(self).spec_items() == without_last(old(self).spec_items()),
    {
        if self.items.len() > 0 {
            self.items.pop();
            assert(self.spec_items() =~= old(self).spec_items().drop_last());
        }
    }

    /// Runs `func` with `item` entered, then leaves the innermost key: when
    /// `func` leaves the hierarchy as it found it, so does `process`.
    pub fn process<T, F: FnOnce(&mut Hierarchy) -> T>(&mut self, item: String, func: F) -> (r: T)
        requires
            forall|h: &mut Hierarchy| func.requires((h,)),
        ensures
            exists|h: &mut Hierarchy|
                (*h).spec_items() == old(self).spec_items().push(item@) && func.ensures((h,), r)
                    && final(self).spec_items() == without_last(final(h).spec_items()),
    {
        self.push(item);
        let t = func(self);
        self.pop();
        t
    }

    /// The keys, outermost first.
    pub fn as_vec(&self) -> (r: &Vec<String>)
        ensures
            r@.map_values(|s: String| s@) == self.spec_items(),
    {
        &self.items
    }

    /// The keys followed by `current`, joined with `.`.
    pub fn join(&self, current: &str) -> (r: String)
        ensures
            r@ == joined(self.spec_items(), current@),
    {
        let ghost items = self.spec_items();
        let mut r = String::new();
        let mut k: usize = 0;
        assert(items.skip(0) == items);
        while k < self.items.len()
            invariant
                items == self.spec_items(),
                k <= items.len(),
                r@ + joined(items.skip(k as int), current@) == joined(items, current@),
            decreases items.len() - k,
        {
            let ghost rest = items.skip(k as int);
            assert(rest.drop_first() == items.skip(k + 1));
            assert(rest[0] == self.items@[k as int]@);
            let ghost before = r@;
            push_text(&mut r, self.items[k].as_str());
            push_char(&mut r, '.');
            assert(r@ + joined(rest.drop_first(), current@) == before + joined(rest, current@));
            k = k + 1;
        }
        assert(items.skip(items.len() as int).len() == 0);
        push_text(&mut r, current);
        r
    }

    /// [`Hierarchy::join`] on an owned key.
    pub fn joining(&self, current: String) -> (r: String)
        ensures
            r@ == joined(self.spec_items(), current@),
    {
        self.join(current.as_str())
    }
}

} // verus!
