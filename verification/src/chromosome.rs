use vstd::prelude::*;

verus! {

/// A genome: a fixed-length ordered sequence of genes.
#[derive(Clone, Debug)]
pub struct Chromosome<T> {
    pub genes: Vec<T>,
}

impl<T> View for Chromosome<T> {
    type V = Seq<T>;

    open spec fn view(&self) -> Seq<T> {
        self.genes@
    }
}

impl<T> Chromosome<T> {
    pub fn new(genes: Vec<T>) -> (chromosome: Self)
        ensures
            chromosome@ == genes@,
    {
        Chromosome { genes }
    }

    pub fn len(&self) -> (n: usize)
        ensures
            n == self@.len(),
    {
        self.genes.len()
    }

    pub fn genes(&self) -> (genes: &Vec<T>)
        ensures
            genes@ == self@,
    {
        &self.genes
    }

    /// An iterator over the genes, first to last.
    pub fn iter(&self) -> (genes: core::slice::Iter<'_, T>)
        ensures
            vstd::std_specs::slice::into_iter_elts(genes) == self@,
    {
        self.genes.as_slice().iter()
    }

    /// A mutable borrow of the gene at `index`; the other genes stay as they are.
    pub fn index_mut(&mut self, index: usize) -> (gene: &mut T)
        requires
            index < old(self)@.len(),
        ensures
            *gene == old(self)@[index as int],
            final(self)@ == old(self)@.update(index as int, *final(gene)),
    {
        &mut self.genes[index]
    }
}

impl<T> core::ops::Index<usize> for Chromosome<T> {
    type Output = T;

    /// The gene at `index`.
    fn index(&self, index: usize) -> (gene: &T)
        ensures
            *gene == self@[index as int],
    {
        &self.genes[index]
    }
}

impl<T> vstd::std_specs::core::IndexSpecImpl<usize> for Chromosome<T> {
    open spec fn index_req(&self, index: &usize) -> bool {
        *index < self@.len()
    }
}

} // verus!
