use std::rc::Rc;
use vstd::prelude::*;

verus! {

/// A heap string of the Lox runtime.
#[derive(Debug)]
pub struct ObjString(pub String);

impl ObjString {
    /// A shared string object that holds `s`.
    pub fn new(s: String) -> (r: Rc<Self>)
        ensures
            r.0@ == s@,
    {
        Rc::new(ObjString(s))
    }

    /// A string object that holds the text of `a` followed by the text of `b`.
    pub fn concat(a: &ObjString, b: &ObjString) -> (r: Rc<Self>)
        ensures
            r.0@ == a.0@ + b.0@,
    {
        let mut s = a.0.clone();
        s.append(b.0.as_str());
        ObjString::new(s)
    }

    /// A second string object with the same text.
    pub fn duplicate(o: &Rc<ObjString>) -> (r: Rc<Self>)
        ensures
            r.0@ == o.0@,
    {
        ObjString::new(o.0.clone())
    }
}

} // verus!
