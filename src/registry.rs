use vstd::prelude::*;

verus! {

/// One named unit of test logic, where it was declared, and its body.
pub struct Test<H> {
    pub name: &'static str,
    pub line: u32,
    pub file: &'static str,
    pub handler: H,
}

/// An append-only collection of test cases, visited in the order of submission.
pub struct Registry<H> {
    entries: Vec<Test<H>>,
}

impl<H> View for Registry<H> {
    type V = Seq<Test<H>>;

    closed spec fn view(&self) -> Seq<Test<H>> {
        self.entries@
    }
}

impl<H> Registry<H> {
    pub fn new() -> (r: Self)
        ensures
            r@ == Seq::<Test<H>>::empty(),
    {
        Registry { entries: Vec::new() }
    }

    /// Adds one entry; nothing already present moves or changes.
    pub fn submit(&mut self, test: Test<H>)
        ensures
            final(self)@ == old(self)@.push(test),
    {
        self.entries.push(test);
    }

    pub fn len(&self) -> (r: usize)
        ensures
            r == self@.len(),
    {
        self.entries.len()
    }

    /// Every submitted entry, each once, in the order of submission.
    pub fn iter(&self) -> (r: &[Test<H>])
        ensures
            r@ == self.visit_order(),
    {
        self.entries.as_slice()
    }

    /// The order in which a full pass over the registry visits its entries.
    pub open spec fn visit_order(&self) -> Seq<Test<H>> {
        self@
    }
}

/// Two full passes over a registry with no submission between them visit the same
/// entries in the same order; a submission between them only adds at the end.
pub proof fn lemma_pass_repeatable<H>(before: Registry<H>, after: Registry<H>, added: Seq<Test<H>>)
    requires
        after@ == before@ + added,
    ensures
        after.visit_order().subrange(0, before.visit_order().len() as int) == before.visit_order(),
        added.len() == 0 ==> after.visit_order() == before.visit_order(),
{
    assert(after@.subrange(0, before@.len() as int) =~= before@);
    if added.len() == 0 {
        assert(after@ =~= before@);
    }
}

} // verus!
