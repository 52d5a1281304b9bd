//! Datasets: indexed collections of items.
use vstd::prelude::*;

verus! {

/// The dataset holds the items `items`, in order.
pub open spec fn clones_of<I: Clone>(items: Seq<I>, copies: Seq<I>) -> bool {
    &&& copies.len() == items.len()
    &&& forall|i: int| 0 <= i < items.len() ==> cloned(items[i], #[trigger] copies[i])
}

/// A collection of items that can be read by index.
pub trait Dataset<I: Clone> {
    /// The items of the dataset, in order.
    spec fn items(&self) -> Seq<I>;

    /// A copy of the item at `index`, or `None` past the last item.
    fn get(&self, index: usize) -> (r: Option<I>)
        ensures
            match r {
                Some(item) => index < self.items().len() && cloned(self.items()[index as int], item),
                None => index >= self.items().len(),
            },
    ;

    /// The number of items.
    fn len(&self) -> (r: usize)
        ensures
            r == self.items().len(),
    ;

    /// Copies of all the items, read in order until the first index that has
    /// no item.
    fn iter(&self) -> (r: Vec<I>)
        ensures
            clones_of(self.items(), r@),
    {
        let mut items: Vec<I> = Vec::new();
        let mut current: usize = 0;
        let n = self.len();
        loop
            invariant
                n == self.items().len(),
                items@.len() == current,
                current <= self.items().len(),
                forall|i: int| 0 <= i < current ==> cloned(self.items()[i], #[trigger] items@[i]),
            decreases self.items().len() - current,
        {
            match self.get(current) {
                Some(item) => {
                    items.push(item);
                    current = current + 1;
                },
                None => {
                    return items;
                },
            }
        }
    }
}

/// Dataset where all items are stored in ram.
pub struct InMemDataset<I> {
    items: Vec<I>,
}

impl<I> InMemDataset<I> {
    /// The items held.
    pub closed spec fn held(&self) -> Seq<I> {
        self.items@
    }

    /// The dataset of the given items.
    pub fn new(items: Vec<I>) -> (r: Self)
        ensures
            r.held() == items@,
    {
        InMemDataset { items }
    }
}

impl<I: Clone> Dataset<I> for InMemDataset<I> {
    open spec fn items(&self) -> Seq<I> {
        self.held()
    }

    fn get(&self, index: usize) -> (r: Option<I>) {
        if index < self.items.len() {
            Some(self.items[index].clone())
        } else {
            None
        }
    }

    fn len(&self) -> (r: usize) {
        self.items.len()
    }
}

impl<I: Clone> InMemDataset<I> {
    /// Create from a dataset. All items are loaded in memory.
    pub fn from_dataset<D: Dataset<I>>(dataset: &D) -> (r: Self)
        ensures
            clones_of(dataset.items(), r.held()),
    {
        let items: Vec<I> = dataset.iter();
        Self::new(items)
    }
}

} // verus!
