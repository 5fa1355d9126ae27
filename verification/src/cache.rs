//! The bounded cache of open log files.
//!
//! The cache decides which files are open and which one has to go; it holds no
//! file handle itself. Each [`FileCache::get_or_open`] tells the caller whether
//! the file has to be opened first and which handle, if any, has to be closed.

use vstd::prelude::*;

verus! {

/// A log file: a directory, where one is configured, and a file name in it.
#[derive(Debug, PartialEq, Eq, Hash)]
pub struct Destination {
    pub base: Option<String>,
    pub file_name: String,
}

/// A destination as the contracts speak of it.
pub struct DestinationView {
    pub base: Option<Seq<char>>,
    pub file_name: Seq<char>,
}

impl View for Destination {
    type V = DestinationView;

    open spec fn view(&self) -> DestinationView {
        DestinationView {
            base: match self.base {
                Some(b) => Some(b@),
                None => None,
            },
            file_name: self.file_name@,
        }
    }
}

impl Clone for Destination {
    fn clone(&self) -> (r: Self)
        ensures
            r@ == self@,
    {
        let base = match &self.base {
            Some(b) => Some(b.clone()),
            None => None,
        };
        Destination { base, file_name: self.file_name.clone() }
    }
}

impl Destination {
    /// Whether two destinations name the same directory and file.
    pub fn same(&self, other: &Destination) -> (r: bool)
        ensures
            r == (self@ == other@),
    {
        let same_base = match (&self.base, &other.base) {
            (Some(a), Some(b)) => *a == *b,
            (None, None) => true,
            _ => false,
        };
        same_base && self.file_name == other.file_name
    }
}

/// What the caller of [`FileCache::get_or_open`] has to do before it writes.
#[derive(Debug, PartialEq, Eq)]
pub struct Acquired {
    /// The file was not open: open it for appending, creating it and its
    /// directories where they are missing.
    pub opened: bool,
    /// The handle of this file left the cache: close it.
    pub evicted: Option<Destination>,
}

/// An outcome as the contracts speak of it.
pub struct AcquiredView {
    pub opened: bool,
    pub evicted: Option<DestinationView>,
}

impl View for Acquired {
    type V = AcquiredView;

    open spec fn view(&self) -> AcquiredView {
        AcquiredView {
            opened: self.opened,
            evicted: match self.evicted {
                Some(d) => Some(d@),
                None => None,
            },
        }
    }
}

/// Whether a miss on a cache in this state puts a file out first.
pub open spec fn is_full(order: Seq<DestinationView>, max_size: nat) -> bool {
    order.len() >= max_size && order.len() > 0
}

/// The open files, least recently used first, after `path` was asked for.
///
/// A file that is open moves to the back. Otherwise it is added at the back,
/// after the file at the front has left where the cache was full.
pub open spec fn order_after(
    order: Seq<DestinationView>,
    max_size: nat,
    path: DestinationView,
) -> Seq<DestinationView> {
    if order.contains(path) {
        order.remove_value(path).push(path)
    } else if is_full(order, max_size) {
        order.drop_first().push(path)
    } else {
        order.push(path)
    }
}

/// What asking for `path` demands of the caller.
pub open spec fn outcome_of(
    order: Seq<DestinationView>,
    max_size: nat,
    path: DestinationView,
) -> AcquiredView {
    AcquiredView {
        opened: !order.contains(path),
        evicted: if !order.contains(path) && is_full(order, max_size) {
            Some(order[0])
        } else {
            None
        },
    }
}

/// What holds of the open files at all times: no file is open twice, and no
/// more files are open than the cache may hold (a cache made for none holds
/// the one it was last asked for).
pub open spec fn is_bounded(order: Seq<DestinationView>, max_size: nat) -> bool {
    &&& order.no_duplicates()
    &&& order.len() <= max_size || order.len() <= 1
}

/// Moving a member of a sequence without duplicates to the back keeps the
/// members, and keeps them apart.
proof fn lemma_move_to_back(order: Seq<DestinationView>, path: DestinationView)
    requires
        order.no_duplicates(),
        order.contains(path),
    ensures
        order.remove_value(path).push(path).no_duplicates(),
        order.remove_value(path).push(path).len() == order.len(),
        forall|d: DestinationView| #[trigger]
            order.remove_value(path).push(path).contains(d) <==> order.contains(d),
{
    order.index_of_first_ensures(path);
    let i = order.index_of_first(path).unwrap();
    let rest = order.remove(i);
    let after = rest.push(path);
    assert(rest == order.remove_value(path));
    assert forall|k: int| 0 <= k < rest.len() implies #[trigger] rest[k] == order[if k < i {
        k
    } else {
        k + 1
    }] by {}
    assert forall|d: DestinationView| #[trigger] after.contains(d) <==> order.contains(d) by {
        if after.contains(d) {
            let k = choose|k: int| 0 <= k < after.len() && after[k] == d;
            if k < rest.len() {
                assert(order[if k < i { k } else { k + 1 }] == d);
            } else {
                assert(order[i] == d);
            }
        }
        if order.contains(d) {
            let k = choose|k: int| 0 <= k < order.len() && order[k] == d;
            if k < i {
                assert(after[k] == d);
            } else if k > i {
                assert(after[k - 1] == d);
            } else {
                assert(after[rest.len() as int] == d);
            }
        }
    }
    assert forall|a: int, b: int| 0 <= a < b < after.len() implies after[a] != after[b] by {
        let from_a = if a < i { a } else { a + 1 };
        assert(after[a] == order[from_a]);
        if b < rest.len() {
            let from_b = if b < i { b } else { b + 1 };
            assert(after[b] == order[from_b]);
        } else {
            assert(after[b] == order[i]);
        }
    }
}

/// Adding a new member at the back of a sequence without duplicates keeps the
/// members apart.
proof fn lemma_add_at_back(order: Seq<DestinationView>, path: DestinationView)
    requires
        order.no_duplicates(),
        !order.contains(path),
    ensures
        order.push(path).no_duplicates(),
        forall|d: DestinationView| #[trigger]
            order.push(path).contains(d) <==> d == path || order.contains(d),
{
    let after = order.push(path);
    assert forall|d: DestinationView| #[trigger]
        after.contains(d) <==> d == path || order.contains(d) by {
        if after.contains(d) {
            let k = choose|k: int| 0 <= k < after.len() && after[k] == d;
            if k < order.len() {
                assert(order[k] == d);
            }
        }
        if order.contains(d) {
            let k = choose|k: int| 0 <= k < order.len() && order[k] == d;
            assert(after[k] == d);
        }
        assert(after[order.len() as int] == path);
    }
    assert forall|a: int, b: int| 0 <= a < b < after.len() implies after[a] != after[b] by {
        assert(after[a] == order[a]);
        if b < order.len() {
            assert(after[b] == order[b]);
        }
    }
}

/// A sequence without duplicates has none after its first member left, and
/// then holds every member but that one.
proof fn lemma_drop_front(order: Seq<DestinationView>)
    requires
        order.no_duplicates(),
        order.len() > 0,
    ensures
        order.drop_first().no_duplicates(),
        forall|d: DestinationView| #[trigger]
            order.drop_first().contains(d) <==> order.contains(d) && d != order[0],
{
    let rest = order.drop_first();
    assert forall|d: DestinationView| #[trigger]
        rest.contains(d) <==> order.contains(d) && d != order[0] by {
        if rest.contains(d) {
            let k = choose|k: int| 0 <= k < rest.len() && rest[k] == d;
            assert(order[k + 1] == d);
        }
        if order.contains(d) && d != order[0] {
            let k = choose|k: int| 0 <= k < order.len() && order[k] == d;
            assert(rest[k - 1] == d);
        }
    }
    assert forall|a: int, b: int| 0 <= a < b < rest.len() implies rest[a] != rest[b] by {
        assert(rest[a] == order[a + 1]);
        assert(rest[b] == order[b + 1]);
    }
}

/// Asking for a file keeps the cache within its bounds and leaves that file
/// open as the most recently used one. The file has to be opened exactly
/// where it was not open. No other file is closed but, on a miss on a full
/// cache, the least recently used one, which was open and is another file.
pub proof fn lemma_order_after(order: Seq<DestinationView>, max_size: nat, path: DestinationView)
    requires
        is_bounded(order, max_size),
    ensures
        is_bounded(order_after(order, max_size, path), max_size),
        order_after(order, max_size, path).last() == path,
        forall|d: DestinationView| #[trigger]
            order_after(order, max_size, path).contains(d) <==> d == path || (order.contains(d)
                && outcome_of(order, max_size, path).evicted != Some(d)),
        outcome_of(order, max_size, path).opened <==> !order.contains(path),
        match outcome_of(order, max_size, path).evicted {
            Some(e) => e == order.first() && order.contains(e) && e != path && order.len()
                >= max_size,
            None => order.contains(path) || order.len() < max_size || order.len() == 0,
        },
{
    if order.contains(path) {
        lemma_move_to_back(order, path);
    } else if is_full(order, max_size) {
        lemma_drop_front(order);
        lemma_add_at_back(order.drop_first(), path);
        assert(order.contains(order[0]));
    } else {
        lemma_add_at_back(order, path);
    }
}

/// Whether a caller that holds the handles `open` can do what `outcome`
/// demands for `path`: it holds the handle that it has to close, and it has to
/// open the file exactly where it holds no handle of it.
pub open spec fn is_ready(
    open: Set<DestinationView>,
    path: DestinationView,
    outcome: AcquiredView,
) -> bool {
    &&& outcome.evicted matches Some(e) ==> open.contains(e) && e != path
    &&& outcome.opened <==> !open.contains(path)
}

/// The handles that the caller holds after it did what `outcome` demands.
pub open spec fn handles_after(
    open: Set<DestinationView>,
    path: DestinationView,
    outcome: AcquiredView,
) -> Set<DestinationView> {
    match outcome.evicted {
        Some(e) => open.remove(e).insert(path),
        None => open.insert(path),
    }
}

/// A caller that holds a handle for each file of the cache, and no other, can
/// always do what the cache demands, and then holds a handle for each file of
/// the cache again: as many handles as the cache has files. So no line is
/// written without a handle, no file is opened twice, and putting a file out
/// closes a handle of another file than the one written to.
pub proof fn lemma_handles_follow_cache(
    order: Seq<DestinationView>,
    max_size: nat,
    path: DestinationView,
)
    requires
        is_bounded(order, max_size),
    ensures
        is_ready(order.to_set(), path, outcome_of(order, max_size, path)),
        handles_after(order.to_set(), path, outcome_of(order, max_size, path)) == order_after(
            order,
            max_size,
            path,
        ).to_set(),
        order_after(order, max_size, path).to_set().len() == order_after(
            order,
            max_size,
            path,
        ).len(),
{
    let after = order_after(order, max_size, path);
    lemma_order_after(order, max_size, path);
    after.unique_seq_to_set();
    assert forall|d: DestinationView|
        handles_after(order.to_set(), path, outcome_of(order, max_size, path)).contains(d)
            <==> after.to_set().contains(d) by {
        assert(after.contains(d) <==> d == path || (order.contains(d) && outcome_of(
            order,
            max_size,
            path,
        ).evicted != Some(d)));
    }
    assert(handles_after(order.to_set(), path, outcome_of(order, max_size, path)) =~= after.to_set());
}

/// The files that are open, in the order of their last use.
pub struct FileCache {
    max_size: usize,
    order: Vec<Destination>,
}

impl View for FileCache {
    type V = Seq<DestinationView>;

    /// The open files, least recently used first.
    closed spec fn view(&self) -> Seq<DestinationView> {
        self.order@.map_values(|d: Destination| d@)
    }
}

impl FileCache {
    /// The number of files that the cache was made for.
    pub closed spec fn capacity(&self) -> nat {
        self.max_size as nat
    }

    /// Holds of every cache: see [`is_bounded`].
    #[verifier::type_invariant]
    pub open spec fn well_formed(self) -> bool {
        is_bounded(self@, self.capacity())
    }

    /// A cache for `max_size` files, with none open.
    pub fn new(max_size: usize) -> (cache: FileCache)
        ensures
            cache@ == Seq::<DestinationView>::empty(),
            cache.capacity() == max_size,
    {
        let cache = FileCache { max_size, order: Vec::new() };
        assert(cache@ =~= Seq::<DestinationView>::empty());
        cache
    }

    /// The number of files that the cache was made for.
    pub fn max_size(&self) -> (n: usize)
        ensures
            n == self.capacity(),
    {
        self.max_size
    }

    /// The number of open files.
    pub fn len(&self) -> (n: usize)
        ensures
            n == self@.len(),
            is_bounded(self@, self.capacity()),
    {
        proof {
            use_type_invariant(self);
        }
        self.order.len()
    }

    /// The place of `path` among the open files, if it is open.
    fn position(&self, path: &Destination) -> (r: Option<usize>)
        ensures
            match r {
                Some(i) => i < self@.len() && self@[i as int] == path@,
                None => !self@.contains(path@),
            },
    {
        let mut i: usize = 0;
        while i < self.order.len()
            invariant
                i <= self.order.len(),
                forall|j: int| 0 <= j < i ==> self@[j] != path@,
            decreases self.order.len() - i,
        {
            if self.order[i].same(path) {
                return Some(i);
            }
            i += 1;
        }
        None
    }

    /// Whether the file is open.
    pub fn contains(&self, path: &Destination) -> (r: bool)
        ensures
            r == self@.contains(path@),
    {
        self.position(path).is_some()
    }

    /// Asks for the open file `path`, as the most recently used one.
    ///
    /// A file that is open stays open. Otherwise the caller has to open it,
    /// after closing the least recently used file where the cache was full.
    pub fn get_or_open(&mut self, path: Destination) -> (r: Acquired)
        ensures
            final(self).capacity() == old(self).capacity(),
            final(self)@ == order_after(old(self)@, old(self).capacity(), path@),
            r@ == outcome_of(old(self)@, old(self).capacity(), path@),
            is_bounded(final(self)@, final(self).capacity()),
    {
        proof {
            use_type_invariant(&*self);
            lemma_order_after(self@, self.capacity(), path@);
        }
        let ghost before = self@;
        let found = self.position(&path);
        // The order is taken out while it changes and put back when it is
        // whole again: the cache is well-formed at every point in between.
        let mut order = Vec::new();
        std::mem::swap(&mut order, &mut self.order);
        assert(self@ =~= Seq::<DestinationView>::empty());
        let mut evicted = None;
        match found {
            Some(i) => {
                proof {
                    before.index_of_first_ensures(path@);
                }
                order.remove(i);
            },
            None => {
                if order.len() >= self.max_size && order.len() > 0 {
                    evicted = Some(order.remove(0));
                }
            },
        }
        order.push(path);
        assert(order@.map_values(|d: Destination| d@) =~= order_after(
            before,
            self.max_size as nat,
            path@,
        ));
        self.order = order;
        Acquired { opened: found.is_none(), evicted }
    }
}

} // verus!
