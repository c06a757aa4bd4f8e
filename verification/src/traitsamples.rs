//! Static trait dispatch: one trait, two implementors.

use vstd::prelude::*;
use vstd::string::StringExecFns;

verus! {

/// An animal with a name and a noise, able to say a sentence.
pub trait Animal: Sized {
    fn new(name: &'static str) -> Self;

    fn name(&self) -> &'static str;

    fn noise(&self) -> &'static str;

    /// The default sentence: the name, then the noise.
    fn talk(&self) -> String {
        let mut out = String::new();
        out.append(self.name());
        out.append(" says ");
        out.append(self.noise());
        out
    }
}

#[derive(Debug, Clone)]
pub struct Sheep {
    naked: bool,
    name: &'static str,
}

impl Sheep {
    /// Whether the sheep has been shorn, as contracts see it.
    pub closed spec fn spec_naked(&self) -> bool {
        self.naked
    }

    /// The sheep's name, as contracts see it.
    pub closed spec fn spec_name(&self) -> &'static str {
        self.name
    }

    /// Whether the sheep has been shorn.
    pub fn is_naked(&self) -> (r: bool)
        ensures
            r == self.spec_naked(),
    {
        self.naked
    }

    /// Shears the sheep: afterwards it is naked, whatever it was before,
    /// and keeps its name.
    pub fn shear(&mut self)
        ensures
            final(self).spec_naked(),
            final(self).spec_name() == old(self).spec_name(),
    {
        if !self.is_naked() {
            self.naked = true;
        }
    }
}

impl Animal for Sheep {
    fn new(name: &'static str) -> (r: Sheep)
        ensures
            r.spec_name()@ == name@,
            !r.spec_naked(),
    {
        Sheep { name, naked: false }
    }

    fn name(&self) -> (r: &'static str)
        ensures
            r@ == self.spec_name()@,
    {
        self.name
    }

    fn noise(&self) -> (r: &'static str)
        ensures
            r@ == (if self.spec_naked() {
                "baaaaah?"@
            } else {
                "baaaaah!"@
            }),
    {
        if self.is_naked() {
            "baaaaah?"
        } else {
            "baaaaah!"
        }
    }

    /// The sheep pauses before it talks.
    fn talk(&self) -> (r: String)
        ensures
            r@ == self.spec_name()@ + " pauses briefly... "@ + (if self.spec_naked() {
                "baaaaah?"@
            } else {
                "baaaaah!"@
            }),
    {
        let mut out = String::new();
        out.append(self.name);
        out.append(" pauses briefly... ");
        out.append(self.noise());
        out
    }
}

#[derive(Debug, Clone)]
pub struct Dog {
    name: &'static str,
}

impl Dog {
    /// The dog's name, as contracts see it.
    pub closed spec fn spec_name(&self) -> &'static str {
        self.name
    }
}

impl Animal for Dog {
    fn new(name: &'static str) -> (r: Dog)
        ensures
            r.spec_name()@ == name@,
    {
        Dog { name }
    }

    fn name(&self) -> (r: &'static str)
        ensures
            r@ == self.spec_name()@,
    {
        self.name
    }

    fn noise(&self) -> (r: &'static str)
        ensures
            r@ == "Woof!"@,
    {
        "Woof!"
    }
}

} // verus!
