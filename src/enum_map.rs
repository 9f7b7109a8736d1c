use vstd::prelude::*;

verus! {

/// A closed set of values numbered `0..COUNT`.
pub trait Enumable: Sized + Copy {
    /// The number of values.
    spec fn spec_count() -> nat;

    /// The number of a value.
    spec fn spec_index(self) -> nat;

    fn count() -> (r: usize)
        ensures
            r == Self::spec_count(),
    ;

    /// The value numbered `value`.
    fn _from_usize(value: usize) -> (r: Self)
        requires
            value < Self::spec_count(),
        ensures
            r.spec_index() == value,
    ;

    /// The number of the value.
    fn _into_usize(self) -> (r: usize)
        ensures
            r == self.spec_index(),
            r < Self::spec_count(),
    ;
}

/// `v` is what `f` gives for the key numbered `i`.
pub open spec fn made_by<K: Enumable, V, F: Fn(K) -> V>(f: F, i: int, v: V) -> bool {
    exists|k: K| k.spec_index() == i && f.ensures((k,), v)
}

/// A total map from the values of `K` to values of `V`.
pub struct EnumableMap<K: Enumable, V> {
    array: Vec<V>,
    key: core::marker::PhantomData<K>,
}

impl<K: Enumable, V> EnumableMap<K, V> {
    /// The value of each key, by the key's number.
    pub closed spec fn spec_values(&self) -> Seq<V> {
        self.array@
    }

    pub open spec fn wf(&self) -> bool {
        self.spec_values().len() == K::spec_count()
    }

    /// The map whose value for the key numbered `i` is `array[i]`.
    pub fn from_from_value(array: Vec<V>) -> (r: Self)
        requires
            array@.len() == K::spec_count(),
        ensures
            r.spec_values() == array@,
            r.wf(),
    {
        EnumableMap { array, key: core::marker::PhantomData }
    }

    /// The map whose value for each key is `f` of the key.
    pub fn new<F: Fn(K) -> V>(f: F) -> (r: Self)
        requires
            forall|k: K| f.requires((k,)),
        ensures
            r.wf(),
            forall|i: int|
                0 <= i < K::spec_count() ==> made_by::<K, V, F>(f, i, #[trigger] r.spec_values()[i]),
    {
        let n = K::count();
        let mut array: Vec<V> = Vec::new();
        let mut i: usize = 0;
        while i < n
            invariant
                n == K::spec_count(),
                i <= n,
                array@.len() == i,
                forall|k: K| f.requires((k,)),
                forall|j: int| 0 <= j < i ==> made_by::<K, V, F>(f, j, #[trigger] array@[j]),
            decreases n - i,
        {
            let key = K::_from_usize(i);
            let v = f(key);
            let ghost before = array@;
            array.push(v);
            assert(made_by::<K, V, F>(f, i as int, array@[i as int]));
            assert(forall|j: int| 0 <= j < i ==> array@[j] == before[j]);
            i = i + 1;
        }
        EnumableMap { array, key: core::marker::PhantomData }
    }

    /// The value of `key`.
    pub fn get(&self, key: K) -> (r: &V)
        requires
            self.wf(),
        ensures
            *r == self.spec_values()[key.spec_index() as int],
    {
        let i = key._into_usize();
        &self.array[i]
    }

    /// The values, by the number of their key.
    pub fn as_slice(&self) -> (r: &[V])
        ensures
            r@ == self.spec_values(),
    {
        self.array.as_slice()
    }
}

} // verus!
