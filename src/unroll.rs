//! Display settings that may or may not have been given by the script.
use crate::ir::Style;
use vstd::prelude::*;

verus! {

/// A value with a flag telling whether it was set explicitly or is still
/// the default.
#[derive(Clone, Copy, Debug)]
pub struct MaybeUnset<T> {
    value: T,
    set: bool,
}

impl<T> View for MaybeUnset<T> {
    type V = (T, bool);

    /// The value and whether it was set.
    closed spec fn view(&self) -> (T, bool) {
        (self.value, self.set)
    }
}

impl<T> MaybeUnset<T> {
    /// An unset value holding `default`.
    pub fn new(default: T) -> (r: Self)
        ensures
            r@ == (default, false),
    {
        MaybeUnset { value: default, set: false }
    }

    /// Set to `value` when it is given, else unset with `default`.
    pub fn new_or(default: T, value: Option<T>) -> (r: Self)
        ensures
            r@ == match value {
                Some(v) => (v, true),
                None => (default, false),
            },
    {
        match value {
            Some(v) => MaybeUnset { value: v, set: true },
            None => MaybeUnset { value: default, set: false },
        }
    }

    /// Whether the value was set.
    pub fn is_set(&self) -> (r: bool)
        ensures
            r == self@.1,
    {
        self.set
    }

    /// Sets the value.
    pub fn set(&mut self, value: T)
        ensures
            final(self)@ == (value, true),
    {
        self.value = value;
        self.set = true;
    }

    /// Sets the value when one is given; otherwise changes nothing.
    pub fn try_set(&mut self, value: Option<T>)
        ensures
            final(self)@ == match value {
                Some(v) => (v, true),
                None => old(self)@,
            },
    {
        if let Some(v) = value {
            self.value = v;
            self.set = true;
        }
    }

    /// Sets the value only if it was not set; returns whether it did.
    pub fn set_if_unset(&mut self, value: T) -> (r: bool)
        ensures
            r == !old(self)@.1,
            final(self)@ == if r {
                (value, true)
            } else {
                old(self)@
            },
    {
        let r = !self.set;
        if r {
            self.set(value);
        }
        r
    }

    /// Sets the value only if it was not set and one is given; returns
    /// whether it did.
    pub fn try_set_if_unset(&mut self, value: Option<T>) -> (r: bool)
        ensures
            r == (!old(self)@.1 && value is Some),
            final(self)@ == match value {
                Some(v) => if r {
                    (v, true)
                } else {
                    old(self)@
                },
                None => old(self)@,
            },
    {
        let r = !self.set && value.is_some();
        if let Some(v) = value {
            if r {
                self.set(v);
            }
        }
        r
    }

    /// The value, set or not.
    pub fn get(&self) -> (r: &T)
        ensures
            *r == self@.0,
    {
        &self.value
    }

    /// The value, only if it was set.
    pub fn try_get(&self) -> (r: Option<&T>)
        ensures
            r is Some <==> self@.1,
            r matches Some(v) ==> *v == self@.0,
    {
        if self.set {
            Some(self.get())
        } else {
            None
        }
    }

    /// Takes the value out.
    pub fn unwrap(self) -> (r: T)
        ensures
            r == self@.0,
    {
        self.value
    }

    /// Applies `f` to the value, keeping the flag.
    pub fn map<U, P: FnOnce(T) -> U>(self, f: P) -> (r: MaybeUnset<U>)
        requires
            f.requires((self@.0,)),
        ensures
            f.ensures((self@.0,), r@.0),
            r@.1 == self@.1,
    {
        MaybeUnset { value: f(self.value), set: self.set }
    }
}

impl<T: Clone> MaybeUnset<T> {
    /// A clone of the value.
    pub fn get_cloned(&self) -> (r: T)
        ensures
            cloned(self@.0, r),
    {
        self.value.clone()
    }

    /// A clone of the whole, flag included.
    pub fn cloned(&self) -> (r: Self)
        ensures
            cloned(self@.0, r@.0),
            r@.1 == self@.1,
    {
        MaybeUnset { value: self.value.clone(), set: self.set }
    }
}

impl<T: Copy> MaybeUnset<T> {
    /// A copy of the value.
    pub fn get_copied(&self) -> (r: T)
        ensures
            r == self@.0,
    {
        self.value
    }

    /// A copy of the whole, flag included.
    pub fn copied(&self) -> (r: Self)
        ensures
            r@ == self@,
    {
        MaybeUnset { value: self.value, set: self.set }
    }
}

/// How a line-like item is drawn.
#[derive(Clone, Copy, Debug, PartialEq, Eq, Structural)]
pub enum LineType {
    Line,
    Ray,
    Segment,
}

/// A display setting attached to an item.
#[derive(Clone, Copy, Debug)]
pub enum AssociatedData {
    Bool(MaybeUnset<bool>),
    Style(MaybeUnset<Style>),
    LineType(MaybeUnset<LineType>),
}

impl AssociatedData {
    /// The setting, if it is a boolean.
    pub fn as_bool(&self) -> (r: Option<MaybeUnset<bool>>)
        ensures
            r == match *self {
                AssociatedData::Bool(v) => Some(v),
                _ => None,
            },
    {
        match self {
            AssociatedData::Bool(v) => Some(v.copied()),
            _ => None,
        }
    }

    /// The setting, if it is a style.
    pub fn as_style(&self) -> (r: Option<MaybeUnset<Style>>)
        ensures
            r == match *self {
                AssociatedData::Style(v) => Some(v),
                _ => None,
            },
    {
        match self {
            AssociatedData::Style(v) => Some(v.copied()),
            _ => None,
        }
    }

    /// The setting, if it is a line type.
    pub fn as_line_type(&self) -> (r: Option<MaybeUnset<LineType>>)
        ensures
            r == match *self {
                AssociatedData::LineType(v) => Some(v),
                _ => None,
            },
    {
        match self {
            AssociatedData::LineType(v) => Some(v.copied()),
            _ => None,
        }
    }
}

} // verus!
