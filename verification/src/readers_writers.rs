//! Readers and writers of a shared list: writers append, readers look.
use vstd::prelude::*;

verus! {

/// The shared list; callers guard it with a readers-writer lock.
pub struct Data {
    data: Vec<usize>,
}

impl View for Data {
    type V = Seq<usize>;

    closed spec fn view(&self) -> Seq<usize> {
        self.data@
    }
}

/// The list after the items `xs` are written one after the other.
pub open spec fn write_all(s: Seq<usize>, xs: Seq<usize>) -> Seq<usize>
    decreases xs.len(),
{
    if xs.len() == 0 {
        s
    } else {
        write_all(s, xs.drop_last()).push(xs.last())
    }
}

impl Data {
    /// An empty list.
    pub fn new() -> (d: Data)
        ensures
            d@ == Seq::<usize>::empty(),
    {
        Data { data: Vec::new() }
    }

    /// What a reader sees: the whole list.
    pub fn read(&self) -> (r: &Vec<usize>)
        ensures
            r@ == self@,
    {
        &self.data
    }

    /// A writer appends `item`.
    pub fn write(&mut self, item: usize)
        ensures
            final(self)@ == old(self)@.push(item),
    {
        self.data.push(item);
    }
}

/// A read gives back every item written since the list was made, in the
/// order in which they were written.
pub proof fn lemma_read_gives_writes(xs: Seq<usize>)
    ensures
        write_all(Seq::empty(), xs) == xs,
    decreases xs.len(),
{
    if xs.len() > 0 {
        lemma_read_gives_writes(xs.drop_last());
        assert(xs.drop_last().push(xs.last()) =~= xs);
    }
}

/// A reader of the shared list.
pub struct Reader {}

impl Reader {
    pub fn new() -> (r: Reader) {
        Reader {}
    }

    /// Reads the shared list.
    pub fn read<'a>(&self, data: &'a Data) -> (r: &'a Vec<usize>)
        ensures
            r@ == data@,
    {
        data.read()
    }
}

/// A writer, who writes its own number.
pub struct Writer {
    pub id: usize,
}

impl Writer {
    pub fn new(i: usize) -> (w: Writer)
        ensures
            w.id == i,
    {
        Writer { id: i }
    }

    /// Appends this writer's number to the shared list.
    pub fn write(&self, data: &mut Data)
        ensures
            final(data)@ == old(data)@.push(self.id),
    {
        data.write(self.id);
    }
}

} // verus!
