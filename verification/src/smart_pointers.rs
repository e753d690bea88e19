//! A cons list built from boxes, and animals used through boxed trait
//! objects.

use vstd::prelude::*;

verus! {

/// A singly linked list of integers: empty, or a head and the rest.
#[derive(Debug)]
pub enum ConsList {
    Nil,
    Cons(i32, Box<ConsList>),
}

/// The number of elements of `l`.
pub open spec fn cons_len(l: ConsList) -> nat
    decreases l,
{
    match l {
        ConsList::Nil => 0,
        ConsList::Cons(_, next) => 1 + cons_len(*next),
    }
}

/// The elements of `l`, in order.
pub open spec fn cons_values(l: ConsList) -> Seq<i32>
    decreases l,
{
    match l {
        ConsList::Nil => seq![],
        ConsList::Cons(v, next) => seq![v] + cons_values(*next),
    }
}

/// The number of elements of `list`.
pub fn list_len(list: &ConsList) -> (n: usize)
    requires
        cons_len(*list) <= usize::MAX,
    ensures
        n == cons_len(*list),
    decreases list,
{
    match list {
        ConsList::Nil => 0,
        ConsList::Cons(_, next) => 1 + list_len(next),
    }
}

/// An animal with a name and a sound.
pub trait Animal {
    /// The sound it makes.
    spec fn sound(&self) -> Seq<char>;

    /// Its name.
    spec fn called(&self) -> Seq<char>;

    /// The sound it makes.
    fn speak(&self) -> (s: &'static str)
        ensures
            s@ == self.sound(),
    ;

    /// Its name.
    fn name(&self) -> (s: &str)
        ensures
            s@ == self.called(),
    ;
}

/// A dog.
pub struct Dog {
    /// Its name.
    pub name: String,
}

/// A cat.
pub struct Cat {
    /// Its name.
    pub name: String,
}

impl Animal for Dog {
    open spec fn sound(&self) -> Seq<char> {
        "汪汪!"@
    }

    open spec fn called(&self) -> Seq<char> {
        self.name@
    }

    fn speak(&self) -> (s: &'static str) {
        "汪汪!"
    }

    fn name(&self) -> (s: &str) {
        self.name.as_str()
    }
}

impl Animal for Cat {
    open spec fn sound(&self) -> Seq<char> {
        "喵~"@
    }

    open spec fn called(&self) -> Seq<char> {
        self.name@
    }

    fn speak(&self) -> (s: &'static str) {
        "喵~"
    }

    fn name(&self) -> (s: &str) {
        self.name.as_str()
    }
}

} // verus!
