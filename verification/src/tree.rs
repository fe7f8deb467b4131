use vstd::prelude::*;

use crate::bytes::{bytes_eq, push_all, subvec};
use crate::objects::{Object, ObjectType, StoredObject};
use vstd::seq_lib::*;

verus! {

// ----------------------------------------------------------------------------
// Tree entries and their canonical ordering
// ----------------------------------------------------------------------------

/// The closed set of entry modes, as written in tree bodies.
#[derive(Clone, Copy, Debug, PartialEq, Eq, Structural)]
pub enum EntryMode {
    Directory,
    Symlink,
    Executable,
    Regular,
}

impl EntryMode {
    /// The octal mode string of this entry mode.
    pub open spec fn mode_spec(self) -> Seq<u8> {
        match self {
            EntryMode::Directory => seq![52u8, 48, 48, 48, 48],  // "40000"
            EntryMode::Symlink => seq![49u8, 50, 48, 48, 48, 48],  // "120000"
            EntryMode::Executable => seq![49u8, 48, 48, 55, 53, 53],  // "100755"
            EntryMode::Regular => seq![49u8, 48, 48, 54, 52, 52],  // "100644"
        }
    }

    pub fn mode_bytes(&self) -> (r: Vec<u8>)
        ensures
            r@ == self.mode_spec(),
    {
        let mut r: Vec<u8> = Vec::new();
        match self {
            EntryMode::Directory => {
                r.push(52);
                r.push(48);
                r.push(48);
                r.push(48);
                r.push(48);
            },
            EntryMode::Symlink => {
                r.push(49);
                r.push(50);
                r.push(48);
                r.push(48);
                r.push(48);
                r.push(48);
            },
            EntryMode::Executable => {
                r.push(49);
                r.push(48);
                r.push(48);
                r.push(55);
                r.push(53);
                r.push(53);
            },
            EntryMode::Regular => {
                r.push(49);
                r.push(48);
                r.push(48);
                r.push(54);
                r.push(52);
                r.push(52);
            },
        }
        proof {
            assert(r@ =~= self.mode_spec());
        }
        r
    }
}

/// The mode an entry gets from its filesystem metadata: a directory is
/// `40000`, a symlink `120000`, a file with any execute bit `100755`, any
/// other file `100644`.
pub open spec fn mode_of(is_dir: bool, is_symlink: bool, permissions: u32) -> EntryMode {
    if is_dir {
        EntryMode::Directory
    } else if is_symlink {
        EntryMode::Symlink
    } else if permissions & 0o111 != 0 {
        EntryMode::Executable
    } else {
        EntryMode::Regular
    }
}

pub fn get_mode(is_dir: bool, is_symlink: bool, permissions: u32) -> (r: EntryMode)
    ensures
        r == mode_of(is_dir, is_symlink, permissions),
{
    if is_dir {
        EntryMode::Directory
    } else if is_symlink {
        EntryMode::Symlink
    } else if permissions & 0o111 != 0 {
        EntryMode::Executable
    } else {
        EntryMode::Regular
    }
}

/// One directory entry handed to the tree builder: its mode, its raw name
/// bytes, and the raw 20-byte hash of its stored child object — `None` for a
/// subdirectory whose own subtree produced no tree object.
pub struct TreeEntry {
    pub mode: EntryMode,
    pub name: Vec<u8>,
    pub child_hash: Option<Vec<u8>>,
}

impl TreeEntry {
    /// A well-formed entry: a nonempty name free of NUL and slash, and a
    /// 20-byte child hash wherever one is present; only a directory may lack
    /// one.
    pub open spec fn valid(self) -> bool {
        &&& 0 < self.name@.len()
        &&& forall|i: int|
            0 <= i < self.name@.len() ==> #[trigger] self.name@[i] != 0 && self.name@[i] != 47
        &&& match self.child_hash {
            Some(h) => h@.len() == 20,
            None => self.mode == EntryMode::Directory,
        }
    }

    /// The key entries are ordered by: the raw name bytes, with a directory
    /// compared as if its name were followed by '/'.
    pub open spec fn sort_key(self) -> Seq<u8> {
        if self.mode == EntryMode::Directory {
            self.name@ + seq![47u8]
        } else {
            self.name@
        }
    }

    /// The serialized form of one surviving entry: mode, space, raw name,
    /// NUL, raw 20-byte hash.
    pub open spec fn serialized(self) -> Seq<u8> {
        self.mode.mode_spec() + seq![32u8] + self.name@ + seq![0u8] + match self.child_hash {
            Some(h) => h@,
            None => Seq::empty(),
        }
    }
}

/// Byte-wise lexicographic order: the shorter of two seqs that agree on the
/// common prefix comes first.
pub open spec fn lex_le(a: Seq<u8>, b: Seq<u8>) -> bool
    decreases a.len(),
{
    if a.len() == 0 {
        true
    } else if b.len() == 0 {
        false
    } else if a[0] < b[0] {
        true
    } else if a[0] > b[0] {
        false
    } else {
        lex_le(a.drop_first(), b.drop_first())
    }
}

pub proof fn lemma_lex_le_total(a: Seq<u8>, b: Seq<u8>)
    ensures
        lex_le(a, b) || lex_le(b, a),
    decreases a.len(),
{
    if a.len() > 0 && b.len() > 0 && a[0] == b[0] {
        lemma_lex_le_total(a.drop_first(), b.drop_first());
    }
}

pub proof fn lemma_lex_le_trans(a: Seq<u8>, b: Seq<u8>, c: Seq<u8>)
    requires
        lex_le(a, b),
        lex_le(b, c),
    ensures
        lex_le(a, c),
    decreases a.len(),
{
    if a.len() > 0 && b.len() > 0 && c.len() > 0 && a[0] == b[0] && b[0] == c[0] {
        lemma_lex_le_trans(a.drop_first(), b.drop_first(), c.drop_first());
    }
}

/// Once two seqs agree on their first `i` bytes, their order is the order of
/// what remains.
pub proof fn lemma_lex_le_skip(a: Seq<u8>, b: Seq<u8>, i: int)
    requires
        0 <= i <= a.len(),
        i <= b.len(),
        forall|j: int| 0 <= j < i ==> a[j] == b[j],
    ensures
        lex_le(a, b) == lex_le(a.skip(i), b.skip(i)),
    decreases i,
{
    if i == 0 {
        assert(a.skip(0) =~= a);
        assert(b.skip(0) =~= b);
    } else {
        assert(a[0] == b[0]);
        assert forall|j: int| 0 <= j < i - 1 implies a.drop_first()[j] == b.drop_first()[j] by {
            assert(a.drop_first()[j] == a[j + 1]);
            assert(b.drop_first()[j] == b[j + 1]);
        }
        lemma_lex_le_skip(a.drop_first(), b.drop_first(), i - 1);
        assert(a.drop_first().skip(i - 1) =~= a.skip(i));
        assert(b.drop_first().skip(i - 1) =~= b.skip(i));
    }
}

/// Compares two byte vectors lexicographically.
pub fn lex_le_bytes(a: &Vec<u8>, b: &Vec<u8>) -> (r: bool)
    ensures
        r == lex_le(a@, b@),
{
    let n = if a.len() < b.len() {
        a.len()
    } else {
        b.len()
    };
    let mut i: usize = 0;
    while i < n
        invariant
            n == if a@.len() < b@.len() {
                a@.len()
            } else {
                b@.len()
            },
            0 <= i <= n,
            forall|j: int| 0 <= j < i ==> a@[j] == b@[j],
        decreases n - i,
    {
        if a[i] < b[i] {
            proof {
                lemma_lex_le_skip(a@, b@, i as int);
            }
            return true;
        }
        if a[i] > b[i] {
            proof {
                lemma_lex_le_skip(a@, b@, i as int);
            }
            return false;
        }
        i += 1;
    }
    proof {
        lemma_lex_le_skip(a@, b@, n as int);
    }
    a.len() <= b.len()
}

/// The sort key of an entry as bytes: the name, and a trailing '/' for a
/// directory.
pub fn sort_key_bytes(e: &TreeEntry) -> (r: Vec<u8>)
    ensures
        r@ == e.sort_key(),
{
    let mut k = subvec(&e.name, 0, e.name.len());
    proof {
        assert(k@ =~= e.name@);
    }
    if matches!(e.mode, EntryMode::Directory) {
        k.push(47);
    }
    k
}

/// Compares two entries in the canonical tree order: byte-for-byte on the raw
/// names, a directory treated as if its name ended in '/'.
pub fn entry_le(a: &TreeEntry, b: &TreeEntry) -> (r: bool)
    ensures
        r == lex_le(a.sort_key(), b.sort_key()),
{
    let ka = sort_key_bytes(a);
    let kb = sort_key_bytes(b);
    lex_le_bytes(&ka, &kb)
}

// ----------------------------------------------------------------------------
// Building a tree object from a directory's resolved entries
// ----------------------------------------------------------------------------

/// An entry survives into the tree body unless its name is the store's
/// reserved metadata-directory name or it is a subdirectory that produced no
/// tree of its own.
pub open spec fn keep_entry(e: TreeEntry, reserved: Seq<u8>) -> bool {
    e.name@ != reserved && e.child_hash is Some
}

/// The surviving entries, in their given order.
pub open spec fn kept_entries(s: Seq<TreeEntry>, reserved: Seq<u8>) -> Seq<TreeEntry>
    decreases s.len(),
{
    if s.len() == 0 {
        Seq::empty()
    } else {
        kept_entries(s.drop_last(), reserved) + if keep_entry(s.last(), reserved) {
            seq![s.last()]
        } else {
            Seq::empty()
        }
    }
}

/// Insertion into an already sorted run: after every entry whose key is not
/// above the new one, so equal keys keep their first-come order.
pub open spec fn insert_sorted(e: TreeEntry, s: Seq<TreeEntry>) -> Seq<TreeEntry>
    decreases s.len(),
{
    if s.len() == 0 {
        seq![e]
    } else if lex_le(s[0].sort_key(), e.sort_key()) {
        seq![s[0]] + insert_sorted(e, s.drop_first())
    } else {
        seq![e] + s
    }
}

/// The canonical order of a directory's entries: a stable insertion sort by
/// `sort_key`.
pub open spec fn sort_entries(s: Seq<TreeEntry>) -> Seq<TreeEntry>
    decreases s.len(),
{
    if s.len() == 0 {
        Seq::empty()
    } else {
        insert_sorted(s.last(), sort_entries(s.drop_last()))
    }
}

/// The tree object's body: the concatenation of the entries' serializations,
/// in their given order.
pub open spec fn tree_body_of(s: Seq<TreeEntry>) -> Seq<u8>
    decreases s.len(),
{
    if s.len() == 0 {
        Seq::empty()
    } else {
        tree_body_of(s.drop_last()) + s.last().serialized()
    }
}

pub open spec fn entries_sorted(s: Seq<TreeEntry>) -> bool {
    forall|i: int, j: int|
        0 <= i < j < s.len() ==> lex_le(#[trigger] s[i].sort_key(), #[trigger] s[j].sort_key())
}

/// Inserting at the first position whose entry's key exceeds the new key is
/// what `insert_sorted` does.
proof fn lemma_insert_sorted_at(e: TreeEntry, s: Seq<TreeEntry>, j: int)
    requires
        0 <= j <= s.len(),
        forall|m: int| 0 <= m < j ==> lex_le(#[trigger] s[m].sort_key(), e.sort_key()),
        j < s.len() ==> !lex_le(s[j].sort_key(), e.sort_key()),
    ensures
        insert_sorted(e, s) == s.insert(j, e),
    decreases s.len(),
{
    if s.len() == 0 {
        assert(insert_sorted(e, s) =~= s.insert(0, e));
    } else if j == 0 {
        assert(!lex_le(s[0].sort_key(), e.sort_key()));
        assert(insert_sorted(e, s) =~= s.insert(0, e));
    } else {
        assert(lex_le(s[0].sort_key(), e.sort_key()));
        assert forall|m: int|
            0 <= m < j - 1 implies lex_le(
            #[trigger] s.drop_first()[m].sort_key(),
            e.sort_key(),
        ) by {
            assert(s.drop_first()[m] == s[m + 1]);
        }
        assert(j - 1 < s.drop_first().len() ==> s.drop_first()[j - 1] == s[j]);
        lemma_insert_sorted_at(e, s.drop_first(), j - 1);
        s.drop_first().insert_ensures(j - 1, e);
        s.insert_ensures(j, e);
        assert(insert_sorted(e, s) =~= s.insert(j, e));
    }
}

proof fn lemma_insert_sorted_props(e: TreeEntry, s: Seq<TreeEntry>)
    requires
        entries_sorted(s),
    ensures
        insert_sorted(e, s).len() == s.len() + 1,
        entries_sorted(insert_sorted(e, s)),
        insert_sorted(e, s).to_multiset() == s.to_multiset().insert(e),
    decreases s.len(),
{
    broadcast use group_to_multiset_ensures;

    let r = insert_sorted(e, s);
    if s.len() == 0 {
        assert(r =~= Seq::empty().push(e));
        assert(r.to_multiset() =~= s.to_multiset().insert(e));
    } else if lex_le(s[0].sort_key(), e.sort_key()) {
        assert forall|i: int, j: int|
            0 <= i < j < s.drop_first().len() implies lex_le(
            #[trigger] s.drop_first()[i].sort_key(),
            #[trigger] s.drop_first()[j].sort_key(),
        ) by {
            assert(s.drop_first()[i] == s[i + 1]);
            assert(s.drop_first()[j] == s[j + 1]);
        }
        lemma_insert_sorted_props(e, s.drop_first());
        let inner = insert_sorted(e, s.drop_first());
        // every element of the inner run is either e or one of s's tail, so
        // s[0] stays below them all
        assert forall|k: int| 0 <= k < inner.len() implies lex_le(
            s[0].sort_key(),
            #[trigger] inner[k].sort_key(),
        ) by {
            assert(inner.contains(inner[k]));
            assert(inner.to_multiset().count(inner[k]) > 0);
            if inner[k] == e {
                assert(lex_le(s[0].sort_key(), e.sort_key()));
            } else {
                assert(s.drop_first().to_multiset().count(inner[k]) > 0);
                assert(s.drop_first().contains(inner[k]));
                let m = choose|m: int|
                    0 <= m < s.drop_first().len() && s.drop_first()[m] == inner[k];
                assert(s[m + 1] == inner[k]);
                assert(lex_le(s[0].sort_key(), s[m + 1].sort_key()));
            }
        }
        assert forall|i: int, j: int|
            0 <= i < j < r.len() implies lex_le(
            #[trigger] r[i].sort_key(),
            #[trigger] r[j].sort_key(),
        ) by {
            if i == 0 {
                assert(r[j] == inner[j - 1]);
            } else {
                assert(r[i] == inner[i - 1]);
                assert(r[j] == inner[j - 1]);
            }
        }
        lemma_multiset_commutative(seq![s[0]], inner);
        lemma_multiset_commutative(seq![s[0]], s.drop_first());
        assert(s =~= seq![s[0]] + s.drop_first());
        assert(r.to_multiset() =~= s.to_multiset().insert(e));
    } else {
        lemma_lex_le_total(s[0].sort_key(), e.sort_key());
        assert(lex_le(e.sort_key(), s[0].sort_key()));
        assert forall|i: int, j: int|
            0 <= i < j < r.len() implies lex_le(
            #[trigger] r[i].sort_key(),
            #[trigger] r[j].sort_key(),
        ) by {
            if i == 0 {
                assert(r[j] == s[j - 1]);
                if j > 1 {
                    lemma_lex_le_trans(e.sort_key(), s[0].sort_key(), s[j - 1].sort_key());
                }
            } else {
                assert(r[i] == s[i - 1]);
                assert(r[j] == s[j - 1]);
            }
        }
        lemma_multiset_commutative(seq![e], s);
        assert(seq![e].to_multiset() =~= Seq::<TreeEntry>::empty().to_multiset().insert(e));
        assert(r.to_multiset() =~= s.to_multiset().insert(e));
    }
}

/// The ordering law of the tree builder: the canonical order is ascending in
/// `sort_key` — so a file named "foo" precedes "foo.txt", while a directory
/// named "foo", compared as "foo/", follows it — and sorting permutes the
/// surviving entries without loss.
pub proof fn lemma_sort_entries_sorted(s: Seq<TreeEntry>)
    ensures
        sort_entries(s).len() == s.len(),
        entries_sorted(sort_entries(s)),
        sort_entries(s).to_multiset() == s.to_multiset(),
    decreases s.len(),
{
    broadcast use group_to_multiset_ensures;

    if s.len() > 0 {
        lemma_sort_entries_sorted(s.drop_last());
        lemma_insert_sorted_props(s.last(), sort_entries(s.drop_last()));
        assert(s =~= s.drop_last().push(s.last()));
        assert(s.drop_last().push(s.last()).to_multiset() =~= s.drop_last().to_multiset().insert(
            s.last(),
        ));
    }
}

/// The entries of `entries` that `order` picks, in `order`'s order.
pub open spec fn entries_at(entries: Seq<TreeEntry>, order: Seq<usize>) -> Seq<TreeEntry> {
    order.map_values(|i: usize| entries[i as int])
}

/// Scans an ordered run for the position where an entry with the given key
/// is inserted: after every entry whose key is not above it.
fn find_insert_pos(entries: &Vec<TreeEntry>, order: &Vec<usize>, key: &Vec<u8>) -> (j: usize)
    requires
        forall|m: int| 0 <= m < order@.len() ==> #[trigger] order@[m] < entries@.len(),
    ensures
        0 <= j <= order@.len(),
        forall|m: int|
            0 <= m < j ==> lex_le(#[trigger] entries@[order@[m] as int].sort_key(), key@),
        j < order@.len() ==> !lex_le(entries@[order@[j as int] as int].sort_key(), key@),
{
    let mut j: usize = 0;
    while j < order.len()
        invariant
            0 <= j <= order@.len(),
            forall|m: int| 0 <= m < order@.len() ==> #[trigger] order@[m] < entries@.len(),
            forall|m: int|
                0 <= m < j ==> lex_le(#[trigger] entries@[order@[m] as int].sort_key(), key@),
        decreases order@.len() - j,
    {
        let idx = order[j];
        let kj = sort_key_bytes(&entries[idx]);
        if !lex_le_bytes(&kj, key) {
            return j;
        }
        j += 1;
    }
    j
}

/// Builds the tree object of a directory from its resolved entries.
///
/// Entries named like the reserved metadata directory and subdirectories
/// without a child hash are dropped; the survivors are put in the canonical
/// order and serialized; a directory with no survivors yields no tree at all.
/// Otherwise the serialized body is encoded as a `Tree` object.
pub fn write_tree(entries: &Vec<TreeEntry>, reserved_name: &Vec<u8>) -> (r: Option<StoredObject>)
    requires
        forall|i: int| 0 <= i < entries@.len() ==> #[trigger] entries@[i].valid(),
    ensures
        ({
            let kept = kept_entries(entries@, reserved_name@);
            let body = tree_body_of(sort_entries(kept));
            match r {
                None => kept.len() == 0,
                Some(s) => kept.len() > 0 && body.len() <= u64::MAX && s.is_encoding_of(
                    ObjectType::Tree,
                    body,
                ),
            }
        }),
{
    let ghost reserved = reserved_name@;
    let mut order: Vec<usize> = Vec::new();
    let mut i: usize = 0;
    proof {
        assert(entries@.take(0) =~= Seq::<TreeEntry>::empty());
        assert(entries_at(entries@, order@) =~= Seq::<TreeEntry>::empty());
    }
    while i < entries.len()
        invariant
            reserved == reserved_name@,
            0 <= i <= entries@.len(),
            forall|k: int| 0 <= k < entries@.len() ==> #[trigger] entries@[k].valid(),
            forall|m: int|
                0 <= m < order@.len() ==> #[trigger] order@[m] < entries@.len() && keep_entry(
                    entries@[order@[m] as int],
                    reserved,
                ),
            entries_sorted(entries_at(entries@, order@)),
            entries_at(entries@, order@) == sort_entries(
                kept_entries(entries@.take(i as int), reserved),
            ),
        decreases entries@.len() - i,
    {
        let ghost prev_kept = kept_entries(entries@.take(i as int), reserved);
        let ghost prev_sorted = entries_at(entries@, order@);
        let e = &entries[i];
        proof {
            assert(entries@.take(i + 1).drop_last() =~= entries@.take(i as int));
            assert(entries@.take(i + 1).last() == entries@[i as int]);
        }
        let keep = e.child_hash.is_some() && !bytes_eq(&e.name, reserved_name);
        proof {
            assert(keep == keep_entry(entries@[i as int], reserved));
        }
        if keep {
            let key = sort_key_bytes(e);
            let j = find_insert_pos(entries, &order, &key);
            proof {
                assert forall|m: int|
                    0 <= m < j implies lex_le(
                    #[trigger] prev_sorted[m].sort_key(),
                    entries@[i as int].sort_key(),
                ) by {
                    assert(prev_sorted[m] == entries@[order@[m] as int]);
                }
                assert(j < prev_sorted.len() ==> !lex_le(
                    prev_sorted[j as int].sort_key(),
                    entries@[i as int].sort_key(),
                ));
                lemma_insert_sorted_at(entries@[i as int], prev_sorted, j as int);
                lemma_insert_sorted_props(entries@[i as int], prev_sorted);
            }
            let ghost order_before = order@;
            order.insert(j, i);
            proof {
                prev_sorted.insert_ensures(j as int, entries@[i as int]);
                order_before.insert_ensures(j as int, i);
                assert(entries_at(entries@, order@) =~= prev_sorted.insert(
                    j as int,
                    entries@[i as int],
                ));
                assert(kept_entries(entries@.take(i + 1), reserved) =~= prev_kept.push(
                    entries@[i as int],
                ));
                assert(sort_entries(prev_kept.push(entries@[i as int])) == insert_sorted(
                    entries@[i as int],
                    sort_entries(prev_kept),
                )) by {
                    assert(prev_kept.push(entries@[i as int]).drop_last() =~= prev_kept);
                }
            }
        } else {
            proof {
                assert(!keep_entry(entries@[i as int], reserved));
                assert(kept_entries(entries@.take(i + 1), reserved) =~= prev_kept);
            }
        }
        i += 1;
    }
    proof {
        assert(entries@.take(entries@.len() as int) =~= entries@);
    }
    let ghost kept = kept_entries(entries@, reserved);
    let ghost sorted = sort_entries(kept);
    proof {
        lemma_sort_entries_sorted(kept);
    }
    if order.len() == 0 {
        return None;
    }
    let mut body: Vec<u8> = Vec::new();
    let mut k: usize = 0;
    proof {
        assert(sorted.take(0) =~= Seq::<TreeEntry>::empty());
    }
    while k < order.len()
        invariant
            0 <= k <= order@.len(),
            forall|m: int| 0 <= m < entries@.len() ==> #[trigger] entries@[m].valid(),
            forall|m: int|
                0 <= m < order@.len() ==> #[trigger] order@[m] < entries@.len() && keep_entry(
                    entries@[order@[m] as int],
                    reserved,
                ),
            sorted == entries_at(entries@, order@),
            body@ == tree_body_of(sorted.take(k as int)),
        decreases order@.len() - k,
    {
        let ghost prev = body@;
        let idx = order[k];
        let e = &entries[idx];
        let mb = e.mode.mode_bytes();
        push_all(&mut body, &mb);
        body.push(32);
        push_all(&mut body, &e.name);
        body.push(0);
        if let Some(h) = &e.child_hash {
            push_all(&mut body, h);
            proof {
                assert(sorted[k as int] == entries@[idx as int]);
                assert(sorted.take(k + 1).drop_last() =~= sorted.take(k as int));
                assert(sorted.take(k + 1).last() == sorted[k as int]);
                assert(body@ =~= prev + entries@[idx as int].serialized());
            }
        } else {
            proof {
                assert(keep_entry(entries@[idx as int], reserved));
                assert(false);
            }
        }
        k += 1;
    }
    proof {
        assert(sorted.take(order@.len() as int) =~= sorted);
    }
    let obj = Object::new(ObjectType::Tree, body);
    match obj.write() {
        Ok(s) => Some(s),
        Err(_) => {
            proof {
                assert(false);
            }
            None
        },
    }
}

} // verus!
