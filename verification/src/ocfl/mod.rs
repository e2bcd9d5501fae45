//! The OCFL model: storage layout configuration, inventories and versions,
//! and the rules that map object identifiers and logical paths to paths in a
//! repository.

pub mod api;
pub mod digest;
pub mod json;

pub use crate::ocfl::api::OcflApi;

use crate::ocfl::digest::{
    hex_encode, hex_lower, is_hex_digit, lemma_hex_lower_alphabet, lemma_hex_lower_len, sha256,
    sha256_digest,
};
use crate::ocfl::json::{json_error_text, json_str_member, parse_str_member};
use crate::text::{chars_of, has_prefix, path_push, path_push_spec, starts_with};
use vstd::string::StringSliceAdditionalSpecFns;
use vstd::prelude::*;

verus! {

/// The storage layout of a repository (extension `0004-hashed-n-tuple-storage-layout`).
pub struct StorageConfig {
    pub digest_algorithm: String,
    pub tuple_size: usize,
    pub number_of_tuples: usize,
    pub short_object_root: bool,
}

/// One version of an object: when it was made and its state, which maps each
/// content digest to the logical paths that hold that content.
///
/// `state` holds its entries in increasing order of digest, each digest once,
/// as the inventory's JSON map gives them.
pub struct Version {
    pub created: String,
    pub state: Vec<(String, Vec<String>)>,
}

/// An object's inventory: its identifier, the name of its head version, the
/// manifest (content digest to content paths) and its versions by name.
///
/// `manifest` and `versions` hold their entries in increasing order of key,
/// each key once.
pub struct Inventory {
    pub id: String,
    pub head: String,
    pub manifest: Vec<(String, Vec<String>)>,
    pub versions: Vec<(String, Version)>,
}

/// An ordered map from strings to values, as a sequence of entries.
pub type Entries<V> = Seq<(Seq<char>, V)>;

/// The mathematical value of a [`Version`].
pub struct VersionView {
    pub created: Seq<char>,
    pub state: Entries<Seq<Seq<char>>>,
}

/// The mathematical value of an [`Inventory`].
pub struct InventoryView {
    pub id: Seq<char>,
    pub head: Seq<char>,
    pub manifest: Entries<Seq<Seq<char>>>,
    pub versions: Entries<VersionView>,
}

impl View for Version {
    type V = VersionView;

    open spec fn view(&self) -> VersionView {
        VersionView { created: self.created@, state: self.state.deep_view() }
    }
}

impl DeepView for Version {
    type V = VersionView;

    open spec fn deep_view(&self) -> VersionView {
        self@
    }
}

impl View for Inventory {
    type V = InventoryView;

    open spec fn view(&self) -> InventoryView {
        InventoryView {
            id: self.id@,
            head: self.head@,
            manifest: self.manifest.deep_view(),
            versions: self.versions.deep_view(),
        }
    }
}

/// `a` comes before `b` in the order of `String`'s `Ord` (code point by code
/// point, a proper prefix first).
pub open spec fn chars_lt(a: Seq<char>, b: Seq<char>) -> bool
    decreases a.len(),
{
    if a.len() == 0 {
        b.len() > 0
    } else if b.len() == 0 {
        false
    } else if a[0] != b[0] {
        (a[0] as u32) < (b[0] as u32)
    } else {
        chars_lt(a.drop_first(), b.drop_first())
    }
}

/// The keys of `e` increase strictly: the shape of a `BTreeMap` keyed by strings.
pub open spec fn keys_increasing<V>(e: Entries<V>) -> bool {
    forall|i: int, j: int| 0 <= i < j < e.len() ==> chars_lt(#[trigger] e[i].0, #[trigger] e[j].0)
}

/// "Comes before" on strings is transitive.
pub proof fn lemma_chars_lt_transitive(a: Seq<char>, b: Seq<char>, c: Seq<char>)
    requires
        chars_lt(a, b),
        chars_lt(b, c),
    ensures
        chars_lt(a, c),
    decreases a.len(),
{
    if a.len() > 0 && a[0] == b[0] && b[0] == c[0] {
        lemma_chars_lt_transitive(a.drop_first(), b.drop_first(), c.drop_first());
    }
}

proof fn lemma_lookup_from_is_entry<V>(e: Entries<V>, key: Seq<char>, j: int)
    requires
        0 <= j,
        lookup_from(e, key, j) is Some,
    ensures
        exists|i: int| j <= i < e.len() && #[trigger] e[i].1 == lookup_from(e, key, j).unwrap(),
    decreases e.len() - j,
{
    if j < e.len() && e[j].0 != key {
        lemma_lookup_from_is_entry(e, key, j + 1);
        let i = choose|i: int| j + 1 <= i < e.len() && #[trigger] e[i].1 == lookup_from(e, key, j + 1).unwrap();
        assert(e[i].1 == lookup_from(e, key, j).unwrap());
    } else if j < e.len() {
        assert(e[j].1 == lookup_from(e, key, j).unwrap());
    }
}

/// In an inventory whose maps are ordered, the head version's state is
/// ordered too.
pub proof fn lemma_head_state_ordered(inv: Inventory)
    requires
        inv.wf(),
        has_head(inv@),
    ensures
        keys_increasing(head_of(inv@).state),
{
    lemma_lookup_from_is_entry(inv@.versions, inv@.head, 0);
    let i = choose|i: int| 0 <= i < inv@.versions.len() && #[trigger] inv@.versions[i].1 == head_of(inv@);
    assert(keys_increasing(inv@.versions[i].1.state));
}

proof fn lemma_chars_lt_skip(a: Seq<char>, b: Seq<char>, i: int)
    requires
        0 <= i < a.len(),
        i < b.len(),
        a[i] == b[i],
    ensures
        chars_lt(a.skip(i), b.skip(i)) == chars_lt(a.skip(i + 1), b.skip(i + 1)),
{
    assert(a.skip(i).drop_first() =~= a.skip(i + 1));
    assert(b.skip(i).drop_first() =~= b.skip(i + 1));
}

/// Whether `a` comes before `b` in the order of strings (see [`chars_lt`]).
pub fn str_lt(a: &str, b: &str) -> (r: bool)
    ensures
        r == chars_lt(a@, b@),
{
    let x = chars_of(a);
    let y = chars_of(b);
    let mut i: usize = 0;
    proof {
        assert(a@.skip(0) =~= a@);
        assert(b@.skip(0) =~= b@);
    }
    while i < x.len() && i < y.len() && x[i] == y[i]
        invariant
            x@ == a@,
            y@ == b@,
            i <= x.len(),
            i <= y.len(),
            chars_lt(a@, b@) == chars_lt(a@.skip(i as int), b@.skip(i as int)),
        decreases x.len() - i,
    {
        proof {
            lemma_chars_lt_skip(a@, b@, i as int);
        }
        i = i + 1;
    }
    if i == x.len() {
        i < y.len()
    } else if i == y.len() {
        false
    } else {
        assert(a@.skip(i as int)[0] == x@[i as int]);
        assert(b@.skip(i as int)[0] == y@[i as int]);
        (x[i] as u32) < (y[i] as u32)
    }
}

proof fn lemma_adjacent_keys_increasing<V>(e: Entries<V>, i: int, j: int)
    requires
        forall|k: int| 0 <= k < e.len() - 1 ==> chars_lt(#[trigger] e[k].0, e[k + 1].0),
        0 <= i < j < e.len(),
    ensures
        chars_lt(e[i].0, e[j].0),
    decreases j - i,
{
    if j > i + 1 {
        lemma_adjacent_keys_increasing(e, i, j - 1);
        assert(chars_lt(e[j - 1].0, e[j].0));
        lemma_chars_lt_transitive(e[i].0, e[j - 1].0, e[j].0);
    }
}

/// Whether the keys of `entries` increase strictly.
pub fn keys_in_order<T: DeepView>(entries: &Vec<(String, T)>) -> (r: bool)
    ensures
        r == keys_increasing(entries.deep_view()),
{
    let ghost e = entries.deep_view();
    let n = entries.len();
    if n == 0 {
        return true;
    }
    let mut k: usize = 0;
    while k < n - 1
        invariant
            e == entries.deep_view(),
            n == entries.len(),
            n > 0,
            k < n,
            forall|m: int| 0 <= m < k ==> chars_lt(#[trigger] e[m].0, e[m + 1].0),
        decreases entries.len() - k,
    {
        assert(e[k as int].0 == entries@[k as int].0@);
        assert(e[k + 1].0 == entries@[k + 1].0@);
        if !str_lt(entries[k].0.as_str(), entries[k + 1].0.as_str()) {
            assert(!keys_increasing(e)) by {
                assert(!chars_lt(e[k as int].0, e[k + 1].0));
            }
            return false;
        }
        k = k + 1;
    }
    assert forall|i: int, j: int| 0 <= i < j < e.len() implies chars_lt(
        #[trigger] e[i].0,
        #[trigger] e[j].0,
    ) by {
        lemma_adjacent_keys_increasing(e, i, j);
    }
    true
}

impl Inventory {
    /// Whether the inventory's maps are ordered maps (see [`Inventory::wf`]).
    pub fn well_formed(&self) -> (r: bool)
        ensures
            r == self.wf(),
    {
        if !keys_in_order(&self.manifest) || !keys_in_order(&self.versions) {
            return false;
        }
        let mut i: usize = 0;
        while i < self.versions.len()
            invariant
                i <= self.versions.len(),
                forall|k: int| 0 <= k < i ==> keys_increasing(#[trigger] self@.versions[k].1.state),
            decreases self.versions.len() - i,
        {
            assert(self@.versions[i as int].1 == self.versions@[i as int].1@);
            if !keys_in_order(&self.versions[i].1.state) {
                assert(!keys_increasing(self@.versions[i as int].1.state));
                return false;
            }
            i = i + 1;
        }
        true
    }

    /// The inventory's maps are ordered maps: keys increase strictly.
    pub open spec fn wf(&self) -> bool {
        &&& keys_increasing(self@.manifest)
        &&& keys_increasing(self@.versions)
        &&& forall|i: int|
            0 <= i < self@.versions.len() ==> keys_increasing(#[trigger] self@.versions[i].1.state)
    }
}

/// The value of the first entry of `e` at or after `i` whose key is `key`.
pub open spec fn lookup_from<V>(e: Entries<V>, key: Seq<char>, i: int) -> Option<V>
    decreases e.len() - i,
{
    if i < 0 || i >= e.len() {
        None
    } else if e[i].0 == key {
        Some(e[i].1)
    } else {
        lookup_from(e, key, i + 1)
    }
}

/// The value that `e` maps `key` to.
pub open spec fn lookup<V>(e: Entries<V>, key: Seq<char>) -> Option<V> {
    lookup_from(e, key, 0)
}

/// The key of the first entry of `state` at or after `i` whose paths hold `path`.
pub open spec fn key_holding_from(state: Entries<Seq<Seq<char>>>, path: Seq<char>, i: int) -> Option<
    Seq<char>,
>
    decreases state.len() - i,
{
    if i < 0 || i >= state.len() {
        None
    } else if state[i].1.contains(path) {
        Some(state[i].0)
    } else {
        key_holding_from(state, path, i + 1)
    }
}

/// The content path that the logical path `path` of a version with state
/// `state` is stored at: the first content path that the manifest lists for
/// the digest of the first state entry holding `path`.
pub open spec fn content_path(
    manifest: Entries<Seq<Seq<char>>>,
    state: Entries<Seq<Seq<char>>>,
    path: Seq<char>,
) -> Option<Seq<char>> {
    match key_holding_from(state, path, 0) {
        Some(digest) => match lookup(manifest, digest) {
            Some(paths) => if paths.len() > 0 {
                Some(paths[0])
            } else {
                None
            },
            None => None,
        },
        None => None,
    }
}

/// Every logical path of a state, entry by entry, in order.
pub open spec fn all_paths(state: Entries<Seq<Seq<char>>>) -> Seq<Seq<char>>
    decreases state.len(),
{
    if state.len() == 0 {
        Seq::empty()
    } else {
        all_paths(state.drop_last()) + state.last().1
    }
}

/// A copy of a list of strings.
pub fn copy_strings(v: &Vec<String>) -> (r: Vec<String>)
    ensures
        r.deep_view() == v.deep_view(),
{
    let mut r: Vec<String> = Vec::new();
    let mut i: usize = 0;
    while i < v.len()
        invariant
            i <= v.len(),
            r@.len() == i,
            forall|k: int| 0 <= k < i ==> (#[trigger] r@[k])@ == v@[k]@,
        decreases v.len() - i,
    {
        r.push(v[i].clone());
        i = i + 1;
    }
    proof {
        assert(r.deep_view() =~= v.deep_view());
    }
    r
}

/// A copy of an ordered map from strings to lists of strings.
pub fn copy_entries(v: &Vec<(String, Vec<String>)>) -> (r: Vec<(String, Vec<String>)>)
    ensures
        r.deep_view() == v.deep_view(),
{
    let mut r: Vec<(String, Vec<String>)> = Vec::new();
    let mut i: usize = 0;
    while i < v.len()
        invariant
            i <= v.len(),
            r@.len() == i,
            forall|k: int| 0 <= k < i ==> (#[trigger] r@[k]).deep_view() == v@[k].deep_view(),
        decreases v.len() - i,
    {
        let entry = (v[i].0.clone(), copy_strings(&v[i].1));
        r.push(entry);
        i = i + 1;
    }
    proof {
        assert(r.deep_view() =~= v.deep_view());
    }
    r
}

impl Version {
    /// A copy of this version.
    pub fn duplicate(&self) -> (r: Version)
        ensures
            r@ == self@,
    {
        Version { created: self.created.clone(), state: copy_entries(&self.state) }
    }
}


/// The keys of `e`, in order.
pub open spec fn keys<V>(e: Entries<V>) -> Seq<Seq<char>> {
    e.map_values(|p: (Seq<char>, V)| p.0)
}

/// The view of an optional string.
pub open spec fn opt_view(o: Option<String>) -> Option<Seq<char>> {
    match o {
        Some(s) => Some(s@),
        None => None,
    }
}

/// Some name in the directory listing `names` begins with `prefix`.
pub open spec fn lists_prefix(names: Seq<Seq<char>>, prefix: Seq<char>) -> bool {
    exists|i: int| 0 <= i < names.len() && has_prefix(#[trigger] names[i], prefix)
}

/// A directory listing is that of a repository root: it holds the
/// `0=ocfl_…` declaration file.
pub open spec fn is_repository_listing(names: Seq<Seq<char>>) -> bool {
    lists_prefix(names, "0=ocfl_"@)
}

/// A directory listing is that of an object root: it holds the
/// `0=ocfl_object_…` declaration file.
pub open spec fn is_object_listing(names: Seq<Seq<char>>) -> bool {
    lists_prefix(names, "0=ocfl_object_"@)
}

/// The inventory names a head version that it holds.
pub open spec fn has_head(inv: InventoryView) -> bool {
    lookup(inv.versions, inv.head) is Some
}

/// The head version of an inventory that has one.
pub open spec fn head_of(inv: InventoryView) -> VersionView {
    lookup(inv.versions, inv.head).unwrap()
}

/// What `versions` answers in a directory with listing `names`, given the
/// inventory found there.
pub open spec fn versions_answer(names: Seq<Seq<char>>, inv: Option<InventoryView>) -> Seq<
    Seq<char>,
> {
    if is_object_listing(names) {
        keys(inv.unwrap().versions)
    } else {
        seq!["Version command needs to be inside an object"@]
    }
}

/// The argument list after the last argument has been resolved: when the
/// directory is an object root, the last argument is a logical path of the
/// head version, and its content path exists, the last argument is replaced
/// by that content path; otherwise the arguments are kept.
pub open spec fn resolved_args(
    names: Seq<Seq<char>>,
    inv: Option<InventoryView>,
    args: Seq<Seq<char>>,
    content_exists: bool,
) -> Seq<Seq<char>> {
    if args.len() > 0 && is_object_listing(names) {
        let inv = inv.unwrap();
        match content_path(inv.manifest, head_of(inv).state, args.last()) {
            Some(p) => if content_exists {
                args.drop_last().push(p)
            } else {
                args
            },
            None => args,
        }
    } else {
        args
    }
}

/// The path, relative to the repository root, of the object whose digest in
/// hex is `hex`: `number` directories of `size` characters each, cut from the
/// front of the digest, then the digest itself.
pub open spec fn tuple_dirs(hex: Seq<char>, size: nat, number: nat) -> Seq<char>
    decreases number,
{
    if number == 0 {
        Seq::empty()
    } else {
        path_push_spec(
            tuple_dirs(hex, size, (number - 1) as nat),
            hex.subrange((number - 1) * size, (number * size) as int),
        )
    }
}

/// The object root path for digest `hex` under a layout.
pub open spec fn object_path(hex: Seq<char>, size: nat, number: nat) -> Seq<char> {
    path_push_spec(tuple_dirs(hex, size, number), hex)
}

/// The directories of the layout as text: each tuple of the digest followed
/// by a `/`.
pub open spec fn tuple_prefix(hex: Seq<char>, size: nat, number: nat) -> Seq<char>
    decreases number,
{
    if number == 0 {
        Seq::empty()
    } else {
        tuple_prefix(hex, size, (number - 1) as nat) + hex.subrange(
            (number - 1) * size,
            (number * size) as int,
        ) + seq!['/']
    }
}

proof fn lemma_tuple_dirs_text(hex: Seq<char>, size: nat, number: nat)
    requires
        size > 0,
        number >= 1,
        number * size <= hex.len(),
        forall|k: int| 0 <= k < hex.len() ==> #[trigger] hex[k] != '/',
    ensures
        tuple_dirs(hex, size, number) + seq!['/'] == tuple_prefix(hex, size, number),
        tuple_dirs(hex, size, number).len() > 0,
        tuple_dirs(hex, size, number).last() != '/',
    decreases number,
{
    let lo = (number - 1) * size;
    assert(lo + size == number * size && lo >= 0) by (nonlinear_arith)
        requires
            lo == (number - 1) * size,
            number >= 1,
    ;
    let seg = hex.subrange(lo, (number * size) as int);
    assert(seg.len() == size);
    assert(seg[0] == hex[lo]);
    assert(seg.last() == hex[lo + size - 1]);
    if number == 1 {
        assert(tuple_dirs(hex, size, 0) =~= Seq::<char>::empty());
        assert(tuple_dirs(hex, size, 1) =~= seg);
        assert(tuple_prefix(hex, size, 0) =~= Seq::<char>::empty());
        assert(tuple_prefix(hex, size, 1) =~= seg + seq!['/']);
    } else {
        assert((number - 1) * size <= number * size) by (nonlinear_arith)
            requires
                number >= 1,
        ;
        lemma_tuple_dirs_text(hex, size, (number - 1) as nat);
        let d = tuple_dirs(hex, size, (number - 1) as nat);
        assert(tuple_dirs(hex, size, number) == d + seq!['/'] + seg);
        assert(tuple_dirs(hex, size, number) + seq!['/'] =~= (d + seq!['/']) + seg + seq!['/']);
    }
}

/// The n-tuple layout: an object's root path is made of the first `number`
/// tuples of `size` characters of its digest, each as a directory, followed
/// by the whole digest (for a digest without `/`, and tuples of at least one
/// character that fit in it).
pub proof fn lemma_object_path_layout(hex: Seq<char>, size: nat, number: nat)
    requires
        size > 0,
        number * size <= hex.len(),
        forall|k: int| 0 <= k < hex.len() ==> #[trigger] hex[k] != '/',
    ensures
        object_path(hex, size, number) == tuple_prefix(hex, size, number) + hex,
{
    if number == 0 {
        assert(tuple_dirs(hex, size, 0) =~= Seq::<char>::empty());
        assert(tuple_prefix(hex, size, 0) =~= Seq::<char>::empty());
        assert(object_path(hex, size, 0) =~= hex);
        assert(Seq::<char>::empty() + hex =~= hex);
    } else {
        lemma_tuple_dirs_text(hex, size, number);
        let d = tuple_dirs(hex, size, number);
        if hex.len() > 0 {
            assert(hex[0] != '/');
        }
        assert(object_path(hex, size, number) == d + seq!['/'] + hex);
    }
}

/// No string comes before itself.
pub proof fn lemma_chars_lt_irreflexive(a: Seq<char>)
    ensures
        !chars_lt(a, a),
    decreases a.len(),
{
    if a.len() > 0 {
        lemma_chars_lt_irreflexive(a.drop_first());
    }
}

proof fn lemma_lookup_from_finds<V>(e: Entries<V>, i: int, j: int)
    requires
        keys_increasing(e),
        0 <= j <= i < e.len(),
    ensures
        lookup_from(e, e[i].0, j) == Some(e[i].1),
    decreases i - j,
{
    if j < i {
        lemma_chars_lt_irreflexive(e[i].0);
        assert(chars_lt(e[j].0, e[i].0));
        assert(e[j].0 != e[i].0);
        lemma_lookup_from_finds(e, i, j + 1);
    }
}

/// In an inventory whose maps are ordered, the head version is the version
/// stored under the head's name, and a digest's manifest entry is the one
/// stored under that digest.
pub proof fn lemma_lookup_in_ordered_inventory(inv: Inventory, i: int, m: int)
    requires
        inv.wf(),
    ensures
        0 <= i < inv@.versions.len() && inv@.versions[i].0 == inv@.head ==> has_head(inv@)
            && head_of(inv@) == inv@.versions[i].1,
        0 <= m < inv@.manifest.len() ==> lookup(inv@.manifest, inv@.manifest[m].0) == Some(
            inv@.manifest[m].1,
        ),
{
    if 0 <= i < inv@.versions.len() {
        lemma_lookup_from_finds(inv@.versions, i, 0);
    }
    if 0 <= m < inv@.manifest.len() {
        lemma_lookup_from_finds(inv@.manifest, m, 0);
    }
}

/// Inside an object whose inventory is ordered, `versions` lists the version
/// names in increasing order.
pub proof fn lemma_versions_listed_in_order(names: Seq<Seq<char>>, inv: Inventory)
    requires
        inv.wf(),
        is_object_listing(names),
    ensures
        forall|i: int, j: int|
            0 <= i < j < versions_answer(names, Some(inv@)).len() ==> chars_lt(
                #[trigger] versions_answer(names, Some(inv@))[i],
                #[trigger] versions_answer(names, Some(inv@))[j],
            ),
{
    let a = versions_answer(names, Some(inv@));
    assert forall|i: int, j: int| 0 <= i < j < a.len() implies chars_lt(
        #[trigger] a[i],
        #[trigger] a[j],
    ) by {
        assert(a[i] == inv@.versions[i].0);
        assert(a[j] == inv@.versions[j].0);
    }
}

/// The path lists of a state, entry by entry.
pub open spec fn path_lists(state: Entries<Seq<Seq<char>>>) -> Seq<Seq<Seq<char>>> {
    state.map_values(|e: (Seq<char>, Seq<Seq<char>>)| e.1)
}

proof fn lemma_all_paths_flatten_alt(state: Entries<Seq<Seq<char>>>)
    ensures
        all_paths(state) == path_lists(state).flatten_alt(),
    decreases state.len(),
{
    if state.len() > 0 {
        lemma_all_paths_flatten_alt(state.drop_last());
        assert(path_lists(state.drop_last()) =~= path_lists(state).drop_last());
    }
}

/// Every logical path of a state, entry by entry: the path lists of its
/// entries, in order, one after the other.
pub proof fn lemma_all_paths_concatenates(state: Entries<Seq<Seq<char>>>)
    ensures
        all_paths(state) == state.map_values(|e: (Seq<char>, Seq<Seq<char>>)| e.1).flatten(),
{
    lemma_all_paths_flatten_alt(state);
    path_lists(state).lemma_flatten_and_flatten_alt_are_equivalent();
}

/// Inside an object root, `versions` answers every version name of the
/// inventory, in the inventory's order: as many names as versions, the
/// `i`-th name being the `i`-th version's key. Elsewhere it answers the
/// notice alone.
pub proof fn lemma_versions_lists_every_version(names: Seq<Seq<char>>, inv: InventoryView)
    ensures
        is_object_listing(names) ==> versions_answer(names, Some(inv)).len() == inv.versions.len(),
        is_object_listing(names) ==> forall|i: int|
            0 <= i < inv.versions.len() ==> #[trigger] versions_answer(names, Some(inv))[i]
                == inv.versions[i].0,
        !is_object_listing(names) ==> versions_answer(names, Some(inv)) == seq![
            "Version command needs to be inside an object"@,
        ],
{
}

proof fn lemma_key_holding_first(state: Entries<Seq<Seq<char>>>, path: Seq<char>, j: int, k: int)
    requires
        0 <= k <= j < state.len(),
        state[j].1.contains(path),
        forall|l: int| 0 <= l < j ==> !(#[trigger] state[l].1.contains(path)),
    ensures
        key_holding_from(state, path, k) == Some(state[j].0),
    decreases j - k,
{
    if k < j {
        lemma_key_holding_first(state, path, j, k + 1);
    }
}

proof fn lemma_key_holding_none(state: Entries<Seq<Seq<char>>>, path: Seq<char>, k: int)
    requires
        0 <= k,
        forall|l: int| 0 <= l < state.len() ==> !(#[trigger] state[l].1.contains(path)),
    ensures
        key_holding_from(state, path, k) is None,
    decreases state.len() - k,
{
    if k < state.len() {
        lemma_key_holding_none(state, path, k + 1);
    }
}

/// A logical path is stored at the first content path that the manifest
/// lists for the digest of the first state entry holding that logical path:
/// when entry `j` is the first entry of `state` whose paths hold `path` and
/// manifest entry `m` has that entry's digest, the content path is the first
/// path of entry `m`, or none if it lists none. A logical path that no entry
/// holds has no content path.
pub proof fn lemma_content_path_of_first_holder(
    manifest: Entries<Seq<Seq<char>>>,
    state: Entries<Seq<Seq<char>>>,
    path: Seq<char>,
    j: int,
    m: int,
)
    requires
        keys_increasing(manifest),
    ensures
        0 <= j < state.len() && state[j].1.contains(path) && (forall|l: int|
            0 <= l < j ==> !(#[trigger] state[l].1.contains(path))) && 0 <= m < manifest.len()
            && manifest[m].0 == state[j].0 ==> content_path(manifest, state, path) == if manifest[m].1.len()
            > 0 {
            Some(manifest[m].1[0])
        } else {
            None
        },
        (forall|l: int| 0 <= l < state.len() ==> !(#[trigger] state[l].1.contains(path)))
            ==> content_path(manifest, state, path) is None,
{
    if 0 <= j < state.len() && state[j].1.contains(path) && (forall|l: int|
        0 <= l < j ==> !(#[trigger] state[l].1.contains(path))) && 0 <= m < manifest.len()
        && manifest[m].0 == state[j].0 {
        lemma_key_holding_first(state, path, j, 0);
        lemma_lookup_from_finds(manifest, m, 0);
    }
    if forall|l: int| 0 <= l < state.len() ==> !(#[trigger] state[l].1.contains(path)) {
        lemma_key_holding_none(state, path, 0);
    }
}

/// Inside an object root, an outside command's last argument is resolved
/// against the version stored under the inventory's head name: when entry `j`
/// is the first entry of that version's state whose logical paths hold the
/// last argument, and manifest entry `m` lists the content paths of that
/// entry's digest, the last argument becomes the first of those content paths
/// (when it exists on disk). When no entry of the head version's state holds
/// the last argument, the arguments stay as they are.
pub proof fn lemma_resolves_against_head(
    names: Seq<Seq<char>>,
    inv: Inventory,
    args: Seq<Seq<char>>,
    content_exists: bool,
    i: int,
)
    requires
        inv.wf(),
        is_object_listing(names),
        args.len() > 0,
        0 <= i < inv@.versions.len(),
        inv@.versions[i].0 == inv@.head,
    ensures
        forall|j: int, m: int|
            0 <= j < inv@.versions[i].1.state.len() && #[trigger] inv@.versions[i].1.state[j].1.contains(
                args.last(),
            ) && (forall|l: int|
                0 <= l < j ==> !(#[trigger] inv@.versions[i].1.state[l].1.contains(args.last())))
                && 0 <= m < inv@.manifest.len() && #[trigger] inv@.manifest[m].0
                == inv@.versions[i].1.state[j].0 && inv@.manifest[m].1.len() > 0 ==> resolved_args(
                names,
                Some(inv@),
                args,
                content_exists,
            ) == if content_exists {
                args.drop_last().push(inv@.manifest[m].1[0])
            } else {
                args
            },
        (forall|l: int|
            0 <= l < inv@.versions[i].1.state.len() ==> !(#[trigger] inv@.versions[i].1.state[l].1.contains(
                args.last(),
            ))) ==> resolved_args(names, Some(inv@), args, content_exists) == args,
{
    lemma_lookup_in_ordered_inventory(inv, i, 0);
    let st = inv@.versions[i].1.state;
    assert forall|j: int, m: int|
        0 <= j < st.len() && #[trigger] st[j].1.contains(args.last()) && (forall|l: int|
            0 <= l < j ==> !(#[trigger] st[l].1.contains(args.last()))) && 0 <= m
            < inv@.manifest.len() && #[trigger] inv@.manifest[m].0 == st[j].0
            && inv@.manifest[m].1.len() > 0 implies resolved_args(
        names,
        Some(inv@),
        args,
        content_exists,
    ) == if content_exists {
        args.drop_last().push(inv@.manifest[m].1[0])
    } else {
        args
    } by {
        lemma_key_holding_first(st, args.last(), j, 0);
        lemma_lookup_in_ordered_inventory(inv, i, m);
    }
    if forall|l: int| 0 <= l < st.len() ==> !(#[trigger] st[l].1.contains(args.last())) {
        lemma_key_holding_none(st, args.last(), 0);
    }
}

/// Resolving the arguments of an outside command keeps their number and all
/// but the last of them; outside an object root it keeps them all.
pub proof fn lemma_resolved_args_shape(
    names: Seq<Seq<char>>,
    inv: Option<InventoryView>,
    args: Seq<Seq<char>>,
    content_exists: bool,
)
    ensures
        resolved_args(names, inv, args, content_exists).len() == args.len(),
        forall|k: int|
            0 <= k < args.len() - 1 ==> #[trigger] resolved_args(names, inv, args, content_exists)[k]
                == args[k],
        !is_object_listing(names) ==> resolved_args(names, inv, args, content_exists) == args,
        !content_exists ==> resolved_args(names, inv, args, content_exists) == args,
{
}

/// What listing all objects does with the next entry of the walk over the
/// repository.
pub enum WalkStep {
    /// Stop, with this error.
    Stop(String),
    /// The entry is an object root: read its inventory.
    Read,
    /// Pass the entry over.
    Skip,
}

/// A repository handle: where its root is and how it lays out objects.
pub struct Ocfl {
    pub ocfl_root: String,
    pub storage_config: StorageConfig,
}

impl Ocfl {
    /// A handle for the repository at `ocfl_root` with the given layout.
    pub fn new(ocfl_root: String, storage_config: StorageConfig) -> (r: Ocfl)
        ensures
            r.ocfl_root@ == ocfl_root@,
            r.storage_config == storage_config,
    {
        Ocfl { ocfl_root, storage_config }
    }

    fn is_file_in_dir(&self, names: &Vec<String>, prefix: &str) -> (r: bool)
        ensures
            r == lists_prefix(names.deep_view(), prefix@),
    {
        let mut i: usize = 0;
        while i < names.len()
            invariant
                i <= names.len(),
                forall|k: int| 0 <= k < i ==> !has_prefix(#[trigger] names@[k]@, prefix@),
            decreases names.len() - i,
        {
            if starts_with(names[i].as_str(), prefix) {
                assert(has_prefix(names.deep_view()[i as int], prefix@));
                return true;
            }
            i = i + 1;
        }
        assert forall|k: int| 0 <= k < names.deep_view().len() implies !has_prefix(
            #[trigger] names.deep_view()[k],
            prefix@,
        ) by {
            assert(names.deep_view()[k] == names@[k]@);
        }
        false
    }

    /// Whether a directory with these entry names is a repository root.
    pub fn is_repository_root(&self, names: &Vec<String>) -> (r: bool)
        ensures
            r == is_repository_listing(names.deep_view()),
    {
        self.is_file_in_dir(names, "0=ocfl_")
    }

    /// How deep under the repository root the object roots lie: one
    /// directory per tuple, then the object's own.
    pub fn object_depth(&self) -> (r: usize)
        requires
            self.storage_config.number_of_tuples < usize::MAX,
        ensures
            r == self.storage_config.number_of_tuples + 1,
    {
        self.storage_config.number_of_tuples + 1
    }

    /// What listing all objects does with the next entry of the walk, given
    /// whether the interrupt flag is raised and the names in the entry: an
    /// interrupt stops the listing with the error `Interrupted`; an object
    /// root's inventory is read; any other entry is passed over.
    pub fn walk_step(&self, interrupted: bool, names: &Vec<String>) -> (r: WalkStep)
        ensures
            interrupted ==> (r matches WalkStep::Stop(m) && m@ == "Interrupted"@),
            !interrupted ==> (r is Read <==> is_object_listing(names.deep_view())),
            !interrupted ==> !(r is Stop),
    {
        if interrupted {
            WalkStep::Stop("Interrupted".to_owned())
        } else if self.is_object_root(names) {
            WalkStep::Read
        } else {
            WalkStep::Skip
        }
    }

    /// Whether a directory with these entry names is an object root.
    pub fn is_object_root(&self, names: &Vec<String>) -> (r: bool)
        ensures
            r == is_object_listing(names.deep_view()),
    {
        self.is_file_in_dir(names, "0=ocfl_object_")
    }

    /// The names of an inventory's versions, in order.
    pub fn version_names(inventory: &Inventory) -> (r: Vec<String>)
        ensures
            r.deep_view() == keys(inventory@.versions),
    {
        let mut r: Vec<String> = Vec::new();
        let mut i: usize = 0;
        while i < inventory.versions.len()
            invariant
                i <= inventory.versions.len(),
                r@.len() == i,
                forall|k: int|
                    0 <= k < i ==> (#[trigger] r@[k])@ == inventory.versions@[k].0@,
            decreases inventory.versions.len() - i,
        {
            r.push(inventory.versions[i].0.clone());
            i = i + 1;
        }
        proof {
            assert(r.deep_view() =~= keys(inventory@.versions));
        }
        r
    }

    /// What the `versions` command answers in a directory with these entry
    /// names: the inventory's version names inside an object root, a notice
    /// elsewhere. `inventory` is the inventory found in the directory; it is
    /// read only inside an object root.
    pub fn list_versions(&self, names: &Vec<String>, inventory: Option<&Inventory>) -> (r: Vec<
        String,
    >)
        requires
            is_object_listing(names.deep_view()) ==> inventory is Some,
            inventory matches Some(inv) ==> inv.wf(),
        ensures
            r.deep_view() == versions_answer(
                names.deep_view(),
                match inventory {
                    Some(inv) => Some(inv@),
                    None => None,
                },
            ),
            is_object_listing(names.deep_view()) ==> forall|i: int, j: int|
                0 <= i < j < r.deep_view().len() ==> chars_lt(
                    #[trigger] r.deep_view()[i],
                    #[trigger] r.deep_view()[j],
                ),
    {
        if self.is_object_root(names) {
            match inventory {
                Some(inv) => {
                    proof {
                        lemma_versions_listed_in_order(names.deep_view(), *inv);
                    }
                    Ocfl::version_names(inv)
                },
                None => Vec::new(),
            }
        } else {
            let mut r: Vec<String> = Vec::new();
            r.push("Version command needs to be inside an object".to_owned());
            proof {
                assert(r.deep_view() =~= seq!["Version command needs to be inside an object"@]);
            }
            r
        }
    }

    /// The version of `inventory` named `name`, if it has one.
    pub fn version_named(inventory: &Inventory, name: &String) -> (r: Option<Version>)
        requires
            inventory.wf(),
        ensures
            match r {
                Some(v) => lookup(inventory@.versions, name@) == Some(v@),
                None => lookup(inventory@.versions, name@) is None,
            },
    {
        let mut i: usize = 0;
        while i < inventory.versions.len()
            invariant
                i <= inventory.versions.len(),
                lookup(inventory@.versions, name@) == lookup_from(
                    inventory@.versions,
                    name@,
                    i as int,
                ),
            decreases inventory.versions.len() - i,
        {
            assert(inventory@.versions[i as int] == (
                inventory.versions@[i as int].0@,
                inventory.versions@[i as int].1@,
            ));
            if inventory.versions[i].0 == *name {
                return Some(inventory.versions[i].1.duplicate());
            }
            i = i + 1;
        }
        None
    }

    /// The head version of `inventory`.
    pub fn head_version(inventory: &Inventory) -> (r: Version)
        requires
            inventory.wf(),
            has_head(inventory@),
        ensures
            r@ == head_of(inventory@),
    {
        match Ocfl::version_named(inventory, &inventory.head) {
            Some(v) => v,
            None => Version { created: String::new(), state: Vec::new() },
        }
    }

    /// The content path that the logical path `arg_path` of `version` is
    /// stored at, per the inventory's manifest.
    pub fn path_for_logical_path(&self, arg_path: &str, inventory: &Inventory, version: &Version) -> (r:
        Option<String>)
        requires
            inventory.wf(),
            keys_increasing(version@.state),
        ensures
            opt_view(r) == content_path(inventory@.manifest, version@.state, arg_path@),
    {
        let arg = arg_path.to_owned();
        let mut i: usize = 0;
        let mut found: Option<usize> = None;
        while i < version.state.len()
            invariant_except_break
                found is None,
            invariant
                arg@ == arg_path@,
                i <= version.state.len(),
                key_holding_from(version@.state, arg@, 0) == key_holding_from(
                    version@.state,
                    arg@,
                    i as int,
                ),
            ensures
                found matches Some(k) ==> k < version.state.len() && key_holding_from(
                    version@.state,
                    arg@,
                    0,
                ) == Some(version@.state[k as int].0),
                found is None ==> key_holding_from(version@.state, arg@, 0) is None,
            decreases version.state.len() - i,
        {
            let paths = &version.state[i].1;
            let mut j: usize = 0;
            let mut holds = false;
            while j < paths.len()
                invariant_except_break
                    !holds,
                    forall|k: int| 0 <= k < j ==> (#[trigger] paths@[k])@ != arg@,
                invariant
                    arg@ == arg_path@,
                    j <= paths.len(),
                ensures
                    holds <==> paths.deep_view().contains(arg@),
                decreases paths.len() - j,
            {
                if paths[j] == arg {
                    assert(paths.deep_view()[j as int] == arg@);
                    holds = true;
                    break;
                }
                j = j + 1;
            }
            if holds {
                found = Some(i);
                break;
            }
            i = i + 1;
        }
        match found {
            None => None,
            Some(k) => {
                let digest = &version.state[k].0;
                let mut m: usize = 0;
                while m < inventory.manifest.len()
                    invariant
                        m <= inventory.manifest.len(),
                        k < version.state.len(),
                        digest@ == version@.state[k as int].0,
                        key_holding_from(version@.state, arg@, 0) == Some(digest@),
                        arg@ == arg_path@,
                        lookup(inventory@.manifest, digest@) == lookup_from(
                            inventory@.manifest,
                            digest@,
                            m as int,
                        ),
                    decreases inventory.manifest.len() - m,
                {
                    assert(inventory@.manifest[m as int] == (
                        inventory.manifest@[m as int].0@,
                        inventory.manifest@[m as int].1.deep_view(),
                    ));
                    if inventory.manifest[m].0 == *digest {
                        let paths = &inventory.manifest[m].1;
                        if paths.len() > 0 {
                            return Some(paths[0].clone());
                        } else {
                            return None;
                        }
                    }
                    m = m + 1;
                }
                None
            },
        }
    }

    /// The content path for the last of `args` inside the object whose
    /// inventory is given, if the head version names it.
    pub fn content_path_for_args(&self, inventory: &Inventory, args: &Vec<String>) -> (r: Option<
        String,
    >)
        requires
            inventory.wf(),
            has_head(inventory@),
            args.len() > 0,
        ensures
            opt_view(r) == content_path(
                inventory@.manifest,
                head_of(inventory@).state,
                args.deep_view().last(),
            ),
    {
        let version = Ocfl::head_version(inventory);
        proof {
            lemma_head_state_ordered(*inventory);
        }
        let last = &args[args.len() - 1];
        self.path_for_logical_path(last.as_str(), inventory, &version)
    }

    /// The arguments of an outside command run in a directory with these
    /// entry names: inside an object root, a last argument that is a logical
    /// path of the head version is replaced by its content path when that
    /// exists. `inventory` is the inventory found in the directory and
    /// `content_exists` whether the content path that
    /// [`Ocfl::content_path_for_args`] gives exists under the directory; both
    /// are read only inside an object root.
    pub fn modify_if_ocfl_path(
        &self,
        names: &Vec<String>,
        inventory: Option<&Inventory>,
        args: Vec<String>,
        content_exists: bool,
    ) -> (r: Vec<String>)
        requires
            inventory matches Some(inv) ==> inv.wf(),
            args.len() > 0 && is_object_listing(names.deep_view()) ==> (inventory matches Some(
                inv,
            ) && has_head(inv@)),
        ensures
            r.deep_view() == resolved_args(
                names.deep_view(),
                match inventory {
                    Some(inv) => Some(inv@),
                    None => None,
                },
                args.deep_view(),
                content_exists,
            ),
    {
        if args.len() > 0 && self.is_object_root(names) {
            let inv = inventory.unwrap();
            let found = self.content_path_for_args(inv, &args);
            match found {
                Some(p) => {
                    if content_exists {
                        let mut r = args;
                        let ghost before = r.deep_view();
                        r.pop();
                        r.push(p);
                        proof {
                            assert(r.deep_view() =~= before.drop_last().push(p@));
                        }
                        r
                    } else {
                        args
                    }
                },
                None => args,
            }
        } else {
            args
        }
    }

    /// The path, relative to the repository root, of the object whose
    /// identifier's digest, in hex, is `checksum`.
    pub fn path_for_digest(&self, checksum: &str) -> (r: String)
        requires
            self.storage_config.number_of_tuples * self.storage_config.tuple_size
                <= checksum@.len(),
        ensures
            r@ == object_path(
                checksum@,
                self.storage_config.tuple_size as nat,
                self.storage_config.number_of_tuples as nat,
            ),
    {
        let n = self.storage_config.number_of_tuples;
        let size = self.storage_config.tuple_size;
        let len = checksum.unicode_len();
        let mut path = String::new();
        let mut k: usize = 0;
        while k < n
            invariant
                n == self.storage_config.number_of_tuples,
                size == self.storage_config.tuple_size,
                len == checksum@.len(),
                n * size <= len,
                k <= n,
                path@ == tuple_dirs(checksum@, size as nat, k as nat),
            decreases n - k,
        {
            assert(k * size + size <= n * size) by (nonlinear_arith)
                requires
                    k < n,
            ;
            let start = k * size;
            let seg = checksum.substring_char(start, start + size);
            proof {
                let kk = (k + 1) as nat;
                assert((kk - 1) * size == start && kk * size == start + size) by (nonlinear_arith)
                    requires
                        kk == k + 1,
                        start == k * size,
                ;
                assert(tuple_dirs(checksum@, size as nat, kk) == path_push_spec(
                    tuple_dirs(checksum@, size as nat, k as nat),
                    checksum@.subrange(start as int, start + size),
                ));
            }
            path = path_push(path.as_str(), seg);
            k = k + 1;
        }
        path_push(path.as_str(), checksum)
    }

    /// The path, relative to the repository root, of the object with
    /// identifier `id`: the SHA-256 digest of the identifier's UTF-8 bytes, in
    /// lower-case hex, cut into the layout's directories.
    pub fn path_for_id(&self, id: &str) -> (r: String)
        requires
            self.storage_config.number_of_tuples * self.storage_config.tuple_size <= 64,
        ensures
            r@ == object_path(
                hex_lower(sha256_digest(id.spec_bytes())),
                self.storage_config.tuple_size as nat,
                self.storage_config.number_of_tuples as nat,
            ),
            self.storage_config.tuple_size > 0 ==> r@ == tuple_prefix(
                hex_lower(sha256_digest(id.spec_bytes())),
                self.storage_config.tuple_size as nat,
                self.storage_config.number_of_tuples as nat,
            ) + hex_lower(sha256_digest(id.spec_bytes())),
    {
        let bytes = id.as_bytes();
        let digest = sha256(bytes);
        let checksum = hex_encode(digest.as_slice());
        proof {
            lemma_hex_lower_len(digest@);
            lemma_hex_lower_alphabet(digest@);
            assert forall|k: int| 0 <= k < checksum@.len() implies #[trigger] checksum@[k] != '/' by {
                assert(is_hex_digit(checksum@[k]));
            }
            if self.storage_config.tuple_size > 0 {
                lemma_object_path_layout(
                    checksum@,
                    self.storage_config.tuple_size as nat,
                    self.storage_config.number_of_tuples as nat,
                );
            }
        }
        self.path_for_digest(checksum.as_str())
    }

    /// Where the configuration of the storage extension `extension` lies under
    /// the repository root; a repository layout that names no extension is an
    /// error, whose message is the default layout's name.
    pub fn storage_config_path(ocfl_root: &str, extension: Option<&str>) -> (r: Result<
        String,
        String,
    >)
        ensures
            match extension {
                Some(e) => r matches Ok(p) && p@ == path_push_spec(
                    ocfl_root@,
                    "extensions/"@ + e@ + "/config.json"@,
                ),
                None => r matches Err(m) && m@ == "0004-hashed-n-tuple-storage-layout"@,
            },
    {
        match extension {
            None => Err("0004-hashed-n-tuple-storage-layout".to_owned()),
            Some(e) => {
                let mut rel = "extensions/".to_owned();
                rel.append(e);
                rel.append("/config.json");
                Ok(path_push(ocfl_root, rel.as_str()))
            },
        }
    }

    /// Where the configuration of the repository's storage extension lies,
    /// given the text of the repository's layout declaration
    /// (`ocfl_layout.json`): text that is no JSON is an error; without a string
    /// `extension` it is an error whose message is the default layout's name;
    /// otherwise the path is as [`Ocfl::storage_config_path`] gives it.
    pub fn storage_config_location(ocfl_root: &str, layout_json: &[u8]) -> (r: Result<
        String,
        String,
    >)
        ensures
            match json_str_member(layout_json@, "extension"@) {
                None => r is Err,
                Some(None) => r matches Err(m) && m@ == "0004-hashed-n-tuple-storage-layout"@,
                Some(Some(e)) => r matches Ok(p) && p@ == path_push_spec(
                    ocfl_root@,
                    "extensions/"@ + e + "/config.json"@,
                ),
            },
    {
        match parse_str_member(layout_json, "extension") {
            Err(e) => Err(json_error_text(&e)),
            Ok(Some(extension)) => Ocfl::storage_config_path(ocfl_root, Some(extension.as_str())),
            Ok(None) => Ocfl::storage_config_path(ocfl_root, None),
        }
    }

    /// Where a repository's layout declaration lies.
    pub fn layout_path(ocfl_root: &str) -> (r: String)
        ensures
            r@ == path_push_spec(ocfl_root@, "ocfl_layout.json"@),
    {
        path_push(ocfl_root, "ocfl_layout.json")
    }

    /// Where the inventory of the object rooted at `dir` lies.
    pub fn inventory_path(dir: &str) -> (r: String)
        ensures
            r@ == path_push_spec(dir@, "inventory.json"@),
    {
        path_push(dir, "inventory.json")
    }

    /// Every logical path of `version`, entry by entry.
    pub fn state_paths(version: &Version) -> (r: Vec<String>)
        ensures
            r.deep_view() == all_paths(version@.state),
    {
        let mut r: Vec<String> = Vec::new();
        let mut i: usize = 0;
        while i < version.state.len()
            invariant
                i <= version.state.len(),
                r.deep_view() == all_paths(version@.state.subrange(0, i as int)),
            decreases version.state.len() - i,
        {
            let paths = &version.state[i].1;
            let ghost start = r.deep_view();
            let mut j: usize = 0;
            while j < paths.len()
                invariant
                    j <= paths.len(),
                    r.deep_view() == start + paths.deep_view().subrange(0, j as int),
                decreases paths.len() - j,
            {
                let ghost before = r.deep_view();
                r.push(paths[j].clone());
                proof {
                    assert(r.deep_view() =~= before.push(paths@[j as int]@));
                    assert(r.deep_view() =~= start + paths.deep_view().subrange(0, j + 1));
                }
                j = j + 1;
            }
            proof {
                let sub = version@.state.subrange(0, i + 1);
                assert(sub.drop_last() =~= version@.state.subrange(0, i as int));
                assert(paths.deep_view().subrange(0, paths.len() as int) =~= paths.deep_view());
                assert(sub.last().1 == paths.deep_view());
            }
            i = i + 1;
        }
        proof {
            assert(version@.state.subrange(0, version.state.len() as int) =~= version@.state);
        }
        r
    }

    /// The identifiers of the given inventories, in order.
    pub fn object_ids(inventories: &Vec<Inventory>) -> (r: Vec<String>)
        ensures
            r.deep_view() == inventories@.map_values(|inv: Inventory| inv.id@),
    {
        let mut r: Vec<String> = Vec::new();
        let mut i: usize = 0;
        while i < inventories.len()
            invariant
                i <= inventories.len(),
                r@.len() == i,
                forall|k: int| 0 <= k < i ==> (#[trigger] r@[k])@ == inventories@[k].id@,
            decreases inventories.len() - i,
        {
            r.push(inventories[i].id.clone());
            i = i + 1;
        }
        proof {
            assert(r.deep_view() =~= inventories@.map_values(|inv: Inventory| inv.id@));
        }
        r
    }
}

} // verus!
