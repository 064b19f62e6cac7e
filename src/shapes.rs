use vstd::prelude::*;

verus! {

/// A person, ordered by name and then by age.
#[derive(Debug, PartialEq, Eq, PartialOrd, Ord)]
pub struct Person {
    pub name: String,
    pub age: u32,
}

impl Person {
    /// A person with the given name and age.
    pub fn new(name: String, age: u32) -> (r: Self)
        ensures
            r.name@ == name@,
            r.age == age,
    {
        Person { name, age }
    }
}

/// A rectangle by its side lengths.
#[derive(Clone, Copy, Debug, PartialEq, Eq, Structural)]
pub struct Rectangle {
    pub width: u32,
    pub height: u32,
}

impl Rectangle {
    /// The square with sides of length `size`.
    pub fn square(size: u32) -> (r: Self)
        ensures
            r.width == size,
            r.height == size,
    {
        Rectangle { width: size, height: size }
    }
}

} // verus!
