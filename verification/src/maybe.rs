use vstd::prelude::*;

verus! {

/// A generic optional value: either a value of type `T` or nothing.
pub enum SomethingOrNothing<T> {
    Something(T),
    Nothing,
}

impl<T> SomethingOrNothing<T> {
    /// Wraps a standard optional value, variant for variant.
    pub fn new(o: Option<T>) -> (r: Self)
        ensures
            (r == match o {
                Option::None => SomethingOrNothing::<T>::Nothing,
                Option::Some(n) => SomethingOrNothing::Something(n),
            }),
    {
        match o {
            Option::None => SomethingOrNothing::Nothing,
            Option::Some(n) => SomethingOrNothing::Something(n),
        }
    }

    /// Unwraps back into a standard optional value, variant for variant.
    pub fn to_option(self) -> (o: Option<T>)
        ensures
            (o == match self {
                SomethingOrNothing::Nothing => Option::<T>::None,
                SomethingOrNothing::Something(n) => Option::Some(n),
            }),
    {
        match self {
            SomethingOrNothing::Nothing => Option::None,
            SomethingOrNothing::Something(n) => Option::Some(n),
        }
    }
}

/// Builds a present value directly through the constructor.
pub fn call_constructor(x: i32) -> (r: SomethingOrNothing<i32>)
    ensures
        r == SomethingOrNothing::Something(x),
{
    SomethingOrNothing::new(Some(x))
}

/// A copyable type with a two-way minimum. `le` is the ordering that
/// `min` decides, stated at the specification level; implementations must
/// show it reflexive and transitive, which is what a minimum over a whole
/// sequence needs.
pub trait Minimum: Copy + Sized {
    spec fn le(self, other: Self) -> bool;

    proof fn le_refl(x: Self)
        ensures
            x.le(x),
    ;

    proof fn le_trans(x: Self, y: Self, z: Self)
        requires
            x.le(y),
            y.le(z),
        ensures
            x.le(z),
    ;

    /// The smaller of the two values under `le`.
    fn min(self, other: Self) -> (r: Self)
        ensures
            r == self || r == other,
            r.le(self),
            r.le(other),
    ;
}

impl Minimum for i32 {
    open spec fn le(self, other: Self) -> bool {
        self <= other
    }

    proof fn le_refl(x: Self) {
    }

    proof fn le_trans(x: Self, y: Self, z: Self) {
    }

    fn min(self, other: Self) -> (r: Self) {
        if self < other {
            self
        } else {
            other
        }
    }
}

/// The minimum of a vector under the element type's `le` ordering:
/// nothing on an empty vector, else an element of the vector that is `le`
/// every element.
pub fn vec_min<T: Minimum>(v: Vec<T>) -> (r: SomethingOrNothing<T>)
    ensures
        (r is Nothing) <==> v@.len() == 0,
        (r matches SomethingOrNothing::Something(m) ==> (exists|k: int|
            0 <= k < v@.len() && v@[k] == m) && (forall|k: int|
            0 <= k < v@.len() ==> m.le(#[trigger] v@[k]))),
{
    let mut min: SomethingOrNothing<T> = SomethingOrNothing::Nothing;
    let mut i: usize = 0;
    while i < v.len()
        invariant
            0 <= i <= v@.len(),
            (min is Nothing) <==> i == 0,
            (min matches SomethingOrNothing::Something(m) ==> (exists|k: int|
                0 <= k < i && v@[k] == m) && (forall|k: int|
                0 <= k < i ==> m.le(#[trigger] v@[k]))),
        decreases v@.len() - i,
    {
        let e = v[i];
        match min {
            SomethingOrNothing::Nothing => {
                proof {
                    T::le_refl(e);
                    assert(v@[0] == e);
                }
                min = SomethingOrNothing::Something(e);
            },
            SomethingOrNothing::Something(n) => {
                let m2 = e.min(n);
                proof {
                    let k0 = choose|k: int| 0 <= k < i && v@[k] == n;
                    assert(v@[k0] == n);
                    assert forall|k: int| 0 <= k < i + 1 implies m2.le(#[trigger] v@[k]) by {
                        if k < i {
                            T::le_trans(m2, n, v@[k]);
                        } else {
                            assert(v@[k] == e);
                        }
                    }
                    if m2 == n {
                        assert(v@[k0] == m2);
                    } else {
                        assert(v@[i as int] == m2);
                    }
                }
                min = SomethingOrNothing::Something(m2);
            },
        }
        i += 1;
    }
    min
}

/// Copies the wrapper variant for variant; a present value is copied with
/// the element type's own `clone`.
impl<T: Clone> Clone for SomethingOrNothing<T> {
    fn clone(&self) -> (r: Self)
        ensures
            (*self is Nothing) ==> (r is Nothing),
            ((*self) matches SomethingOrNothing::Something(n) ==> (r matches
                SomethingOrNothing::Something(m) && cloned::<T>(n, m))),
    {
        match self {
            SomethingOrNothing::Nothing => SomethingOrNothing::Nothing,
            SomethingOrNothing::Something(e) => SomethingOrNothing::Something(e.clone()),
        }
    }
}

} // verus!
