use vstd::prelude::*;

verus! {

/// Relies on String::clear: afterwards the string is empty.
pub assume_specification[ String::clear ](s: &mut String)
    ensures
        final(s)@ == Seq::<char>::empty(),
;

/// A pool of reusable string buffers. Every string at rest in the pool is
/// empty; taking one out therefore always yields an empty string.
pub struct StringPool {
    name: String,
    strings: Vec<String>,
}

impl StringPool {
    /// Every pooled string is empty.
    pub closed spec fn wf(&self) -> bool {
        forall|i: int| 0 <= i < self.strings@.len() ==> (#[trigger] self.strings@[i])@.len() == 0
    }

    /// How many strings are at rest in the pool.
    pub closed spec fn spec_size(&self) -> nat {
        self.strings@.len()
    }

    pub fn with_size(name: &str, number_of_strings: u32) -> (r: StringPool)
        ensures
            r.wf(),
            r.spec_size() == number_of_strings,
    {
        let mut strings: Vec<String> = Vec::new();
        let mut i: u32 = 0;
        while i < number_of_strings
            invariant
                0 <= i <= number_of_strings,
                strings@.len() == i,
                forall|j: int| 0 <= j < i ==> (#[trigger] strings@[j])@.len() == 0,
            decreases number_of_strings - i,
        {
            strings.push(String::new());
            i = i + 1;
        }
        StringPool { name: String::from_str(name), strings }
    }

    /// Take a string out of the pool, or make a fresh one when the pool is
    /// empty; either way it is empty.
    pub fn get(&mut self) -> (r: String)
        requires
            old(self).wf(),
        ensures
            final(self).wf(),
            r@.len() == 0,
            final(self).spec_size() == (if old(self).spec_size() > 0 {
                old(self).spec_size() - 1
            } else {
                0
            }),
    {
        match self.strings.pop() {
            Some(s) => s,
            None => String::new(),
        }
    }

    /// A string holding `s`, drawn from the pool where possible.
    pub fn string_from(&mut self, s: &str) -> (r: String)
        requires
            old(self).wf(),
        ensures
            final(self).wf(),
            r@ == s@,
            final(self).spec_size() == (if old(self).spec_size() > 0 {
                old(self).spec_size() - 1
            } else {
                0
            }),
    {
        let mut string = self.get();
        string.append(s);
        proof {
            assert(string@ =~= s@);
        }
        string
    }

    /// Return a string to the pool; its contents are discarded.
    pub fn put(&mut self, s: String)
        requires
            old(self).wf(),
        ensures
            final(self).wf(),
            final(self).spec_size() == old(self).spec_size() + 1,
    {
        let mut s = s;
        s.clear();
        self.strings.push(s);
    }

    /// How many strings are at rest in the pool.
    pub fn size(&self) -> (r: usize)
        ensures
            r == self.spec_size(),
    {
        self.strings.len()
    }
}

} // verus!
