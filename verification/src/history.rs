//! Keep track of previously entered commands: for each folder, how often each command was
//! entered there, kept in a radix trie so that commands can be predicted from their start.

use vstd::prelude::*;
use std::cmp::Ordering;
use itertools::Itertools;
use radix_trie::{Trie, TrieCommon};
use std::collections::HashMap;
use crate::strings::{lemma_text_less_total, lemma_text_less_transitive, str_eq, str_less, text_less};

verus! {

#[verifier::external_type_specification]
#[verifier::external_body]
#[verifier::reject_recursive_types(K)]
#[verifier::reject_recursive_types(V)]
pub struct ExTrie<K, V>(Trie<K, V>);

/// A trie from commands to counts.
pub type CommandTrie = Trie<String, u32>;

/// Entries of commands and counts.
pub type Entries = Vec<(String, u32)>;

/// The commands that a trie holds, with their counts.
pub uninterp spec fn trie_map(t: Trie<String, u32>) -> Map<Seq<char>, u32>;

/// The entries of a trie in the order in which `iter` visits them.
pub uninterp spec fn trie_entries(t: Trie<String, u32>) -> Seq<(Seq<char>, u32)>;

/// The entries that `iter` visits in the subtrie that `subtrie` finds for `start`.
pub uninterp spec fn subtrie_entries(t: Trie<String, u32>, start: Seq<char>) -> Seq<(Seq<char>, u32)>;

/// Entries as names and counts.
pub open spec fn entries_view(v: Seq<(String, u32)>) -> Seq<(Seq<char>, u32)> {
    v.map_values(|e: (String, u32)| (e.0@, e.1))
}

/// No two entries share a key.
pub open spec fn distinct_keys(s: Seq<(Seq<char>, u32)>) -> bool {
    forall|i: int, j: int| 0 <= i < j < s.len() ==> #[trigger] s[i].0 != #[trigger] s[j].0
}

/// The count of `k` in `m`, if `m` holds it.
pub open spec fn count_of(m: Map<Seq<char>, u32>, k: Seq<char>) -> Option<u32> {
    if m.dom().contains(k) {
        Some(m[k])
    } else {
        None
    }
}

/// No commands at all.
pub open spec fn no_commands() -> Map<Seq<char>, u32> {
    Map::empty()
}

/// `Trie::new`: an empty trie.
#[verifier::external_body]
fn trie_new() -> (fresh: CommandTrie)
    ensures
        trie_map(fresh) == no_commands(),
{
    Trie::new()
}

/// `Trie::get`: the value stored for `key`, if any.
#[verifier::external_body]
fn trie_get(t: &Trie<String, u32>, key: &str) -> (r: Option<u32>)
    ensures
        r == count_of(trie_map(*t), key@),
{
    t.get(key).copied()
}

/// `Trie::insert`: store `value` for `key`; the value stored before is returned.
#[verifier::external_body]
fn trie_insert(t: &mut Trie<String, u32>, key: String, value: u32) -> (r: Option<u32>)
    ensures
        trie_map(*final(t)) == trie_map(*old(t)).insert(key@, value),
        r == count_of(trie_map(*old(t)), key@),
{
    t.insert(key, value)
}

/// `TrieCommon::len`: the number of stored keys.
#[verifier::external_body]
fn trie_len(t: &Trie<String, u32>) -> (n: usize)
    ensures
        n == trie_map(*t).dom().len(),
{
    t.len()
}

/// `TrieCommon::iter`: every stored key once, with its value.
#[verifier::external_body]
fn trie_iter(t: &Trie<String, u32>) -> (v: Entries)
    ensures
        entries_view(v@) == trie_entries(*t),
        distinct_keys(entries_view(v@)),
        forall|i: int| 0 <= i < v@.len() ==> #[trigger] count_of(trie_map(*t), v@[i].0@) == Some(v@[i].1),
        forall|k: Seq<char>| #[trigger] trie_map(*t).dom().contains(k) ==> exists|i: int| 0 <= i < v@.len() && v@[i].0@ == k,
{
    t.iter().map(|(k, v)| (k.clone(), *v)).collect()
}

/// `Trie::subtrie` then `TrieCommon::iter`: the entries below the node for `start`, if the
/// trie has a node there. Each is a stored key that starts with `start`, once, with its value.
/// Where `start` is itself a stored key, its node is there, and every key that starts with it
/// is found, in the order in which `iter` visits the whole trie. Otherwise which keys with that
/// start are found depends on the shape of the trie, and is left unsaid.
#[verifier::external_body]
fn trie_subtrie_entries(t: &Trie<String, u32>, start: &str) -> (v: Entries)
    ensures
        entries_view(v@) == subtrie_entries(*t, start@),
        distinct_keys(entries_view(v@)),
        forall|i: int| 0 <= i < v@.len() ==> #[trigger] count_of(trie_map(*t), v@[i].0@) == Some(v@[i].1),
        forall|i: int| 0 <= i < v@.len() ==> start@.is_prefix_of(#[trigger] v@[i].0@),
        trie_map(*t).dom().contains(start@) ==> entries_view(v@) == trie_entries(*t).filter(
            |e: (Seq<char>, u32)| start@.is_prefix_of(e.0),
        ),
{
    t.subtrie(start).iter().flat_map(|s| s.iter()).map(|(k, v)| (k.clone(), *v)).collect()
}

/// Order entries by count, the highest first.
fn by_count_descending(a: &(String, u32), b: &(String, u32)) -> (o: Ordering)
    ensures
        o == if b.1 < a.1 {
            Ordering::Less
        } else if b.1 == a.1 {
            Ordering::Equal
        } else {
            Ordering::Greater
        },
{
    if b.1 < a.1 {
        Ordering::Less
    } else if b.1 == a.1 {
        Ordering::Equal
    } else {
        Ordering::Greater
    }
}

/// The entries of `s` with count `c`, in their order.
pub open spec fn with_count(s: Seq<(Seq<char>, u32)>, c: u32) -> Seq<(Seq<char>, u32)> {
    s.filter(|e: (Seq<char>, u32)| e.1 == c)
}

/// `Itertools::sorted_by` with the highest count first: the same entries, by count from the
/// highest down. The sort is stable: entries with equal counts keep their order.
#[verifier::external_body]
fn sorted_by_count(v: Vec<(String, u32)>) -> (r: Entries)
    ensures
        entries_view(r@).to_multiset() == entries_view(v@).to_multiset(),
        forall|i: int, j: int| 0 <= i < j < r@.len() ==> (#[trigger] r@[j]).1 <= (#[trigger] r@[i]).1,
        forall|c: u32| #[trigger] with_count(entries_view(r@), c) == with_count(entries_view(v@), c),
{
    v.into_iter().sorted_by(by_count_descending).collect()
}

/// `sorted` holds the entries of `found`, the highest count first; entries with equal counts
/// keep their order.
pub open spec fn sorted_by_counts(sorted: Seq<(Seq<char>, u32)>, found: Seq<(Seq<char>, u32)>) -> bool {
    &&& sorted.to_multiset() == found.to_multiset()
    &&& forall|i: int, j: int| 0 <= i < j < sorted.len() ==> (#[trigger] sorted[j]).1 <= (#[trigger] sorted[i]).1
    &&& forall|c: u32| #[trigger] with_count(sorted, c) == with_count(found, c)
}

/// The commands entered in one folder, with the number of times each was entered.
#[derive(Debug, PartialEq)]
pub struct EnteredCommands(Trie<String, u32>);

impl View for EnteredCommands {
    type V = Map<Seq<char>, u32>;

    closed spec fn view(&self) -> Map<Seq<char>, u32> {
        trie_map(self.0)
    }
}

/// The counts after `command` is entered once more.
pub open spec fn entered(m: Map<Seq<char>, u32>, command: Seq<char>) -> Map<Seq<char>, u32> {
    match count_of(m, command) {
        Some(c) => m.insert(command, (c + 1) as u32),
        None => m.insert(command, 1),
    }
}

/// Entering `command` once more keeps its count in a `u32`.
pub open spec fn can_enter(m: Map<Seq<char>, u32>, command: Seq<char>) -> bool {
    match count_of(m, command) {
        Some(c) => c < u32::MAX,
        None => true,
    }
}

/// Entering a command counts it once more, starting from one, and leaves the counts of the
/// other commands as they were.
pub proof fn law_enter_counts_once_more(m: Map<Seq<char>, u32>, command: Seq<char>, other: Seq<char>)
    requires
        can_enter(m, command),
        other != command,
    ensures
        count_of(entered(m, command), command) == Some(
            match count_of(m, command) {
                Some(c) => (c + 1) as u32,
                None => 1u32,
            },
        ),
        count_of(entered(m, command), other) == count_of(m, other),
{
}

impl EnteredCommands {
    /// The trie that holds the commands.
    pub closed spec fn trie(&self) -> Trie<String, u32> {
        self.0
    }

    /// No commands.
    pub fn new() -> (e: Self)
        ensures
            e@ == Map::<Seq<char>, u32>::empty(),
    {
        EnteredCommands(trie_new())
    }

    /// Count `command` once more: it is stored with count 1 when it is new.
    pub fn enter(&mut self, command: &str)
        requires
            can_enter(old(self)@, command@),
        ensures
            final(self)@ == entered(old(self)@, command@),
    {
        match trie_get(&self.0, command) {
            Some(counter) => {
                let _ = trie_insert(&mut self.0, command.to_owned(), counter + 1);
            },
            None => {
                let _ = trie_insert(&mut self.0, command.to_owned(), 1);
            },
        }
    }

    /// How often `command` was entered, if ever.
    pub fn get(&self, command: &str) -> (r: Option<u32>)
        ensures
            r == count_of(self@, command@),
    {
        trie_get(&self.0, command)
    }

    /// The number of different commands.
    pub fn len(&self) -> (n: usize)
        ensures
            n == self@.dom().len(),
    {
        trie_len(&self.0)
    }

    /// Every command once, with its count.
    pub fn entries(&self) -> (v: Entries)
        ensures
            entries_view(v@) == trie_entries(self.trie()),
            distinct_keys(entries_view(v@)),
            forall|i: int| 0 <= i < v@.len() ==> #[trigger] count_of(self@, v@[i].0@) == Some(v@[i].1),
            forall|k: Seq<char>| #[trigger] self@.dom().contains(k) ==> exists|i: int| 0 <= i < v@.len() && v@[i].0@ == k,
    {
        trie_iter(&self.0)
    }

    /// The rest of the commands that start with `start`, the most frequent first: those found
    /// in the subtrie for `start`.
    pub fn predict(&self, start: &str) -> (r: Vec<String>)
        ensures
            r@.len() == subtrie_entries(self.trie(), start@).len(),
            trie_map(self.trie()).dom().contains(start@) ==> subtrie_entries(self.trie(), start@) == trie_entries(
                self.trie(),
            ).filter(|e: (Seq<char>, u32)| start@.is_prefix_of(e.0)),
            exists|sorted: Seq<(Seq<char>, u32)>| {
                &&& #[trigger] sorted_by_counts(sorted, subtrie_entries(self.trie(), start@))
                &&& sorted.len() == r@.len()
                &&& forall|i: int| 0 <= i < r@.len() ==> start@ + (#[trigger] r@[i])@ == sorted[i].0
            },
    {
        let found = trie_subtrie_entries(&self.0, start);
        let ghost fv = entries_view(found@);
        let sorted = sorted_by_count(found);
        let ghost sv = entries_view(sorted@);
        proof {
            assert(sv.len() == sorted@.len());
            assert(fv.len() == sv.len()) by {
                vstd::seq_lib::to_multiset_len(sv);
                vstd::seq_lib::to_multiset_len(fv);
            }
        }
        proof {
            assert forall|k: int| 0 <= k < sorted@.len() implies start@.is_prefix_of(#[trigger] sv[k].0) by {
                assert(sv.contains(sv[k]));
                vstd::seq_lib::to_multiset_contains(sv, sv[k]);
                vstd::seq_lib::to_multiset_contains(fv, sv[k]);
                assert(fv.contains(sv[k]));
                let j = choose|j: int| 0 <= j < fv.len() && fv[j] == sv[k];
                assert(fv[j].0 == found@[j].0@);
            }
        }
        let mut r: Vec<String> = Vec::new();
        let mut i: usize = 0;
        while i < sorted.len()
            invariant
                sv == entries_view(sorted@),
                i <= sorted@.len(),
                r@.len() == i,
                forall|k: int| 0 <= k < sorted@.len() ==> start@.is_prefix_of(#[trigger] sv[k].0),
                forall|k: int| 0 <= k < i ==> start@ + (#[trigger] r@[k])@ == sv[k].0,
            decreases sorted@.len() - i,
        {
            proof {
                assert(sv[i as int].0 == sorted@[i as int].0@);
            }
            let rest = strip_prefix(sorted[i].0.as_str(), start);
            r.push(rest);
            i = i + 1;
        }
        proof {
            assert(sorted_by_counts(sv, fv));
        }
        r
    }
}

/// The text of `s` after its first `start.len()` characters, where `start` is a prefix of `s`.
fn strip_prefix(s: &str, start: &str) -> (r: String)
    requires
        start@.is_prefix_of(s@),
    ensures
        start@ + r@ == s@,
{
    let chars = crate::strings::chars_of(s);
    let n = crate::runeline::char_count(start);
    let rest = vstd::slice::slice_subrange(chars.as_slice(), n, chars.len());
    let r = crate::strings::string_from_chars(rest);
    proof {
        assert(start@ + r@ =~= s@);
    }
    r
}

/// The commands entered in each folder.
#[derive(Debug, PartialEq)]
pub struct History {
    folders: Vec<(String, EnteredCommands)>,
}

/// Folder names and their commands.
pub open spec fn folders_view(v: Seq<(String, EnteredCommands)>) -> Seq<(Seq<char>, Map<Seq<char>, u32>)> {
    v.map_values(|e: (String, EnteredCommands)| (e.0@, e.1@))
}

/// No folder occurs twice.
pub open spec fn unique_folders(v: Seq<(Seq<char>, Map<Seq<char>, u32>)>) -> bool {
    forall|i: int, j: int| 0 <= i < j < v.len() ==> #[trigger] v[i].0 != #[trigger] v[j].0
}

/// The commands of `folder`, if it has an entry.
pub open spec fn folder_commands(v: Seq<(Seq<char>, Map<Seq<char>, u32>)>, folder: Seq<char>) -> Option<Map<Seq<char>, u32>> {
    if exists|i: int| 0 <= i < v.len() && #[trigger] v[i].0 == folder {
        Some(v[choose|i: int| 0 <= i < v.len() && #[trigger] v[i].0 == folder].1)
    } else {
        None
    }
}

/// The folders are in the order of their names.
pub open spec fn names_in_order(v: Seq<(Seq<char>, Map<Seq<char>, u32>)>) -> bool {
    forall|i: int, j: int| 0 <= i < j < v.len() ==> text_less(#[trigger] v[i].0, #[trigger] v[j].0)
}

impl History {
    /// The folders are kept in the order of their names, so that two histories with the same
    /// folders and commands are equal.
    #[verifier::type_invariant]
    spec fn folders_in_order(self) -> bool {
        names_in_order(folders_view(self.folders@))
    }

    /// Put a folder that the history does not have where its name belongs.
    fn insert_folder(&mut self, folder: String, commands: EnteredCommands) -> (k: usize)
        requires
            forall|i: int| 0 <= i < old(self)@.len() ==> #[trigger] old(self)@[i].0 != folder@,
        ensures
            k <= old(self)@.len(),
            final(self)@ == old(self)@.insert(k as int, (folder@, commands@)),
    {
        proof {
            use_type_invariant(&*self);
        }
        let ghost v = self@;
        let mut p: usize = 0;
        while p < self.folders.len() && str_less(self.folders[p].0.as_str(), folder.as_str())
            invariant
                p <= self.folders@.len(),
                v == self@,
                v.len() == self.folders@.len(),
                forall|j: int| 0 <= j < p ==> text_less(#[trigger] v[j].0, folder@),
            decreases self.folders@.len() - p,
        {
            proof {
                assert(v[p as int].0 == self.folders@[p as int].0@);
            }
            p = p + 1;
        }
        proof {
            if p < v.len() {
                assert(v[p as int].0 == self.folders@[p as int].0@);
                assert(v[p as int].0 != folder@);
                lemma_text_less_total(v[p as int].0, folder@);
                assert(text_less(folder@, v[p as int].0));
                assert forall|j: int| p < j < v.len() implies text_less(folder@, #[trigger] v[j].0) by {
                    lemma_text_less_transitive(folder@, v[p as int].0, v[j].0);
                }
            }
        }
        let mut folders: Vec<(String, EnteredCommands)> = Vec::new();
        std::mem::swap(&mut folders, &mut self.folders);
        let ghost c = commands@;
        folders.insert(p, (folder, commands));
        proof {
            let u = folders_view(folders@);
            assert(u =~= v.insert(p as int, (folder@, c)));
            assert forall|a: int, b: int| 0 <= a < b < u.len() implies text_less(#[trigger] u[a].0, #[trigger] u[b].0) by {
                if b < p {
                    assert(u[a] == v[a] && u[b] == v[b]);
                } else if b == p {
                    assert(u[a] == v[a]);
                } else if a < p {
                    assert(u[a] == v[a] && u[b] == v[b - 1]);
                    if p < v.len() {
                        lemma_text_less_transitive(v[a].0, folder@, v[b - 1].0);
                    }
                } else if a == p {
                    assert(u[b] == v[b - 1]);
                } else {
                    assert(u[a] == v[a - 1] && u[b] == v[b - 1]);
                }
            }
        }
        self.folders = folders;
        p
    }

    /// Replace the commands of folder `k`.
    fn set_commands(&mut self, k: usize, commands: EnteredCommands)
        requires
            k < old(self)@.len(),
        ensures
            final(self)@ == old(self)@.update(k as int, (old(self)@[k as int].0, commands@)),
    {
        proof {
            use_type_invariant(&*self);
        }
        let ghost v = self@;
        let mut folders: Vec<(String, EnteredCommands)> = Vec::new();
        std::mem::swap(&mut folders, &mut self.folders);
        let ghost c = commands@;
        let name = folders[k].0.clone();
        folders.set(k, (name, commands));
        proof {
            assert(folders_view(folders@) =~= v.update(k as int, (v[k as int].0, c)));
        }
        self.folders = folders;
    }

    /// Count `cmd` once more in folder `k`.
    fn enter_at(&mut self, k: usize, cmd: &str)
        requires
            k < old(self)@.len(),
            can_enter(old(self)@[k as int].1, cmd@),
        ensures
            final(self)@ == old(self)@.update(k as int, (old(self)@[k as int].0, entered(old(self)@[k as int].1, cmd@))),
    {
        proof {
            use_type_invariant(&*self);
        }
        let ghost v = self@;
        let mut folders: Vec<(String, EnteredCommands)> = Vec::new();
        std::mem::swap(&mut folders, &mut self.folders);
        proof {
            assert(folders@[k as int].1@ == v[k as int].1);
        }
        folders[k].1.enter(cmd);
        proof {
            assert(folders_view(folders@) =~= v.update(k as int, (v[k as int].0, entered(v[k as int].1, cmd@))));
        }
        self.folders = folders;
    }
}

impl History {
    /// The entries of folder `i` in the order in which its trie visits them.
    pub closed spec fn folder_entries(&self, i: int) -> Seq<(Seq<char>, u32)> {
        trie_entries(self.folders@[i].1.0)
    }

    /// An empty history.
    pub fn new() -> (h: Self)
        ensures
            h@.len() == 0,
    {
        History { folders: Vec::new() }
    }

    /// The index of the entry of `folder`.
    fn position(&self, folder: &str) -> (r: Option<usize>)
        ensures
            match r {
                Some(i) => i < self@.len() && self@[i as int].0 == folder@,
                None => forall|i: int| 0 <= i < self@.len() ==> #[trigger] self@[i].0 != folder@,
            },
    {
        let mut i: usize = 0;
        while i < self.folders.len()
            invariant
                i <= self.folders@.len(),
                forall|j: int| 0 <= j < i ==> #[trigger] self@[j].0 != folder@,
            decreases self.folders@.len() - i,
        {
            if str_eq(self.folders[i].0.as_str(), folder) {
                return Some(i);
            }
            i = i + 1;
        }
        None
    }

    /// Whether `cmd` can be counted once more in `folder` (its count is below `u32::MAX`).
    pub fn can_enter_check(&self, folder: &str, cmd: &str) -> (b: bool)
        requires
            unique_folders(self@),
        ensures
            b == can_enter(
                match folder_commands(self@, folder@) {
                    Some(m) => m,
                    None => Map::empty(),
                },
                cmd@,
            ),
    {
        match self.position(folder) {
            Some(i) => {
                proof {
                    lemma_folder_at(self@, i as int);
                }
                match self.folders[i].1.get(cmd) {
                    Some(c) => c < u32::MAX,
                    None => true,
                }
            },
            None => {
                proof {
                    assert(!(exists|i: int| 0 <= i < self@.len() && #[trigger] self@[i].0 == folder@));
                    assert(count_of(Map::<Seq<char>, u32>::empty(), cmd@) is None);
                }
                true
            },
        }
    }

    /// Count `cmd` once more in `folder`; a new folder gets an entry of its own.
    pub fn enter(&mut self, folder: &str, cmd: &str)
        requires
            unique_folders(old(self)@),
            can_enter(
                match folder_commands(old(self)@, folder@) {
                    Some(m) => m,
                    None => Map::empty(),
                },
                cmd@,
            ),
        ensures
            unique_folders(final(self)@),
            names_in_order(final(self)@),
            folder_commands(final(self)@, folder@) == Some(
                entered(
                    match folder_commands(old(self)@, folder@) {
                        Some(m) => m,
                        None => Map::empty(),
                    },
                    cmd@,
                ),
            ),
            forall|f: Seq<char>| f != folder@ ==> #[trigger] folder_commands(final(self)@, f) == folder_commands(old(self)@, f),
    {
        let ghost old_v = self@;
        let k = match self.position(folder) {
            Some(i) => {
                proof {
                    lemma_folder_at(old_v, i as int);
                }
                i
            },
            None => {
                let k = self.insert_folder(folder.to_owned(), EnteredCommands::new());
                proof {
                    assert forall|f: Seq<char>| #[trigger] folder_commands(self@, f) == (if f == folder@ {
                        Some(Map::<Seq<char>, u32>::empty())
                    } else {
                        folder_commands(old_v, f)
                    }) by {
                        lemma_folder_insert(old_v, k as int, folder@, Map::<Seq<char>, u32>::empty(), f);
                    }
                    lemma_folder_insert(old_v, k as int, folder@, Map::<Seq<char>, u32>::empty(), folder@);
                    assert(self@[k as int] == (folder@, Map::<Seq<char>, u32>::empty()));
                }
                k
            },
        };
        let ghost mid = self@;
        proof {
            lemma_folder_at(mid, k as int);
            assert(mid[k as int].0 == folder@);
        }
        self.enter_at(k, cmd);
        proof {
            let after = entered(mid[k as int].1, cmd@);
            lemma_folder_update(mid, k as int, after);
            use_type_invariant(&*self);
        }
    }

    /// The history that the bytes of a saved history decode to: every folder with its
    /// commands and counts. Bytes that are no such encoding give the decoder's error.
    pub fn from_bytes(bytes: &[u8]) -> (r: Result<History, String>)
        ensures
            r is Ok <==> decoded_history(bytes@) is Some,
            r matches Ok(h) ==> unique_folders(h@) && names_in_order(h@) && forall|f: Seq<char>| #[trigger] folder_commands(h@, f) == map_folder(
                decoded_history(bytes@)->0,
                f,
            ),
    {
        match decode_history_maps(bytes) {
            Ok(maps) => {
                let h = History::from_maps(&maps);
                proof {
                    assert forall|f: Seq<char>| #[trigger] folder_commands(h@, f) == map_folder(decoded_history(bytes@)->0, f) by {
                        lemma_lists_map(maps_view(maps@), decoded_history(bytes@)->0, f);
                    }
                }
                Ok(h)
            },
            Err(e) => Err(e),
        }
    }

    /// The bytes that save the history: they decode to every folder with its commands and
    /// counts.
    pub fn to_bytes(&self) -> (r: Vec<u8>)
        requires
            unique_folders(self@),
        ensures
            decoded_history(r@) matches Some(m) && forall|f: Seq<char>| #[trigger] map_folder(m, f) == folder_commands(self@, f),
    {
        let maps = self.to_maps();
        let r = encode_history_maps(&maps);
        proof {
            law_history_round_trip(self@, maps_view(maps@));
        }
        r
    }

    /// A history from folders and the commands with their counts; a later entry of a folder
    /// or a command replaces an earlier one.
    pub fn from_maps(maps: &Vec<(String, Vec<(String, u32)>)>) -> (h: Self)
        ensures
            unique_folders(h@),
            names_in_order(h@),
            forall|f: Seq<char>| #[trigger] folder_commands(h@, f) == folder_from_maps(maps_view(maps@), f),
    {
        let mut h = History::new();
        let mut i: usize = 0;
        while i < maps.len()
            invariant
                i <= maps@.len(),
                unique_folders(h@),
                forall|f: Seq<char>| #[trigger] folder_commands(h@, f) == folder_from_maps(maps_view(maps@).take(i as int), f),
            decreases maps@.len() - i,
        {
            let (dir, cmds) = &maps[i];
            let mut commands = EnteredCommands::new();
            let mut j: usize = 0;
            while j < cmds.len()
                invariant
                    j <= cmds@.len(),
                    commands@ == commands_from(entries_view(cmds@).take(j as int)),
                decreases cmds@.len() - j,
            {
                let _ = trie_insert(&mut commands.0, cmds[j].0.clone(), cmds[j].1);
                proof {
                    assert(entries_view(cmds@).take(j + 1).drop_last() =~= entries_view(cmds@).take(j as int));
                }
                j = j + 1;
            }
            proof {
                assert(entries_view(cmds@).take(j as int) =~= entries_view(cmds@));
            }
            let ghost old_v = h@;
            match h.position(dir.as_str()) {
                Some(k) => {
                    let ghost cm = commands@;
                    h.set_commands(k, commands);
                    proof {
                        assert(h@ =~= old_v.update(k as int, (dir@, cm)));
                        lemma_folder_update(old_v, k as int, cm);
                    }
                },
                None => {
                    let ghost cm = commands@;
                    let k = h.insert_folder(dir.clone(), commands);
                    proof {
                        lemma_folder_insert(old_v, k as int, dir@, cm, dir@);
                        assert forall|f: Seq<char>| #[trigger] folder_commands(h@, f) == (if f == dir@ { Some(cm) } else { folder_commands(old_v, f) }) by {
                            lemma_folder_insert(old_v, k as int, dir@, cm, f);
                        }
                    }
                },
            }
            proof {
                let mv = maps_view(maps@);
                assert(mv.take(i + 1).drop_last() =~= mv.take(i as int));
                assert(mv.take(i + 1).last() == (dir@, entries_view(cmds@)));
            }
            i = i + 1;
        }
        proof {
            assert(maps_view(maps@).take(i as int) =~= maps_view(maps@));
            use_type_invariant(&h);
        }
        h
    }

    /// The folders, each with its commands and their counts.
    pub fn to_maps(&self) -> (r: Vec<(String, Vec<(String, u32)>)>)
        ensures
            r@.len() == self@.len(),
            forall|i: int| 0 <= i < r@.len() ==> (#[trigger] r@[i]).0@ == self@[i].0 && entries_view(r@[i].1@) == self.folder_entries(i),
            maps_of(self@, maps_view(r@)),
    {
        let mut r: Vec<(String, Vec<(String, u32)>)> = Vec::new();
        let mut i: usize = 0;
        while i < self.folders.len()
            invariant
                i <= self.folders@.len(),
                r@.len() == i,
                forall|k: int| 0 <= k < i ==> (#[trigger] r@[k]).0@ == self@[k].0 && entries_view(r@[k].1@) == self.folder_entries(k),
                forall|k: int| 0 <= k < i ==> lists_commands(self@[k].1, #[trigger] maps_view(r@)[k].1),
            decreases self.folders@.len() - i,
        {
            let entries = self.folders[i].1.entries();
            proof {
                let m = self@[i as int].1;
                let ev = entries_view(entries@);
                assert(m == self.folders@[i as int].1@);
                assert forall|j: int| 0 <= j < ev.len() implies #[trigger] count_of(m, ev[j].0) == Some(ev[j].1) by {
                    assert(ev[j] == (entries@[j].0@, entries@[j].1));
                    assert(count_of(m, entries@[j].0@) == Some(entries@[j].1));
                }
                assert forall|k: Seq<char>| #[trigger] m.dom().contains(k) implies exists|j: int| 0 <= j < ev.len() && ev[j].0 == k by {
                    let j = choose|j: int| 0 <= j < entries@.len() && entries@[j].0@ == k;
                    assert(ev[j].0 == k);
                }
                assert(lists_commands(m, ev));
            }
            let ghost before = r@;
            r.push((self.folders[i].0.clone(), entries));
            proof {
                assert forall|k: int| 0 <= k < i + 1 implies lists_commands(self@[k].1, #[trigger] maps_view(r@)[k].1) by {
                    if k < i {
                        assert(r@[k] == before[k]);
                        assert(maps_view(before)[k].1 == maps_view(r@)[k].1);
                    }
                }
            }
            i = i + 1;
        }
        r
    }
}

impl View for History {
    type V = Seq<(Seq<char>, Map<Seq<char>, u32>)>;

    closed spec fn view(&self) -> Seq<(Seq<char>, Map<Seq<char>, u32>)> {
        folders_view(self.folders@)
    }
}

/// The commands that storing the entries in order gives; a later entry replaces an earlier.
pub open spec fn commands_from(entries: Seq<(Seq<char>, u32)>) -> Map<Seq<char>, u32>
    decreases entries.len(),
{
    if entries.len() == 0 {
        Map::empty()
    } else {
        commands_from(entries.drop_last()).insert(entries.last().0, entries.last().1)
    }
}

/// Folders with their entries as names and counts.
pub open spec fn maps_view(v: Seq<(String, Vec<(String, u32)>)>) -> Seq<(Seq<char>, Seq<(Seq<char>, u32)>)> {
    v.map_values(|e: (String, Vec<(String, u32)>)| (e.0@, entries_view(e.1@)))
}

/// The commands of `folder` that the last entry of the folder in `maps` gives, if any.
pub open spec fn folder_from_maps(maps: Seq<(Seq<char>, Seq<(Seq<char>, u32)>)>, folder: Seq<char>) -> Option<Map<Seq<char>, u32>>
    decreases maps.len(),
{
    if maps.len() == 0 {
        None
    } else if maps.last().0 == folder {
        Some(commands_from(maps.last().1))
    } else {
        folder_from_maps(maps.drop_last(), folder)
    }
}

/// `e` lists the commands of `m` exactly: every command once, with its count.
pub open spec fn lists_commands(m: Map<Seq<char>, u32>, e: Seq<(Seq<char>, u32)>) -> bool {
    &&& distinct_keys(e)
    &&& forall|j: int| 0 <= j < e.len() ==> #[trigger] count_of(m, e[j].0) == Some(e[j].1)
    &&& forall|k: Seq<char>| #[trigger] m.dom().contains(k) ==> exists|j: int| 0 <= j < e.len() && e[j].0 == k
}

/// `mv` lists the folders of `h` in order, each with an exact list of its commands.
pub open spec fn maps_of(h: Seq<(Seq<char>, Map<Seq<char>, u32>)>, mv: Seq<(Seq<char>, Seq<(Seq<char>, u32)>)>) -> bool {
    &&& mv.len() == h.len()
    &&& forall|i: int| 0 <= i < mv.len() ==> (#[trigger] mv[i]).0 == h[i].0 && lists_commands(h[i].1, mv[i].1)
}

/// Storing entries gives a command exactly where an entry names it, with the count of the
/// last such entry.
proof fn lemma_commands_from(e: Seq<(Seq<char>, u32)>)
    ensures
        forall|k: Seq<char>| #[trigger] commands_from(e).dom().contains(k) <==> exists|j: int| 0 <= j < e.len() && e[j].0 == k,
        distinct_keys(e) ==> forall|j: int| 0 <= j < e.len() ==> #[trigger] commands_from(e)[e[j].0] == e[j].1,
    decreases e.len(),
{
    if e.len() > 0 {
        let d = e.drop_last();
        lemma_commands_from(d);
        assert forall|k: Seq<char>| #[trigger] commands_from(e).dom().contains(k) <==> exists|j: int| 0 <= j < e.len() && e[j].0 == k by {
            if commands_from(d).dom().contains(k) {
                let j = choose|j: int| 0 <= j < d.len() && d[j].0 == k;
                assert(e[j] == d[j]);
            }
            if exists|j: int| 0 <= j < e.len() && e[j].0 == k {
                let j = choose|j: int| 0 <= j < e.len() && e[j].0 == k;
                if j < e.len() - 1 {
                    assert(d[j] == e[j]);
                }
            }
        }
        if distinct_keys(e) {
            assert forall|a: int, b: int| 0 <= a < b < d.len() implies #[trigger] d[a].0 != #[trigger] d[b].0 by {
                assert(d[a] == e[a] && d[b] == e[b]);
            }
            assert forall|j: int| 0 <= j < e.len() implies #[trigger] commands_from(e)[e[j].0] == e[j].1 by {
                if j < e.len() - 1 {
                    assert(d[j] == e[j]);
                    assert(e[j].0 != e[e.len() - 1].0);
                    assert(commands_from(d)[d[j].0] == d[j].1);
                }
            }
        }
    }
}

/// An exact list of the commands of `m` gives back `m` when it is stored.
proof fn lemma_commands_from_list(m: Map<Seq<char>, u32>, e: Seq<(Seq<char>, u32)>)
    requires
        lists_commands(m, e),
    ensures
        commands_from(e) == m,
{
    lemma_commands_from(e);
    assert forall|k: Seq<char>| #[trigger] commands_from(e).dom().contains(k) <==> m.dom().contains(k) by {
        if commands_from(e).dom().contains(k) {
            let j = choose|j: int| 0 <= j < e.len() && e[j].0 == k;
            assert(count_of(m, e[j].0) == Some(e[j].1));
        }
    }
    assert forall|k: Seq<char>| #[trigger] m.dom().contains(k) implies commands_from(e)[k] == m[k] by {
        let j = choose|j: int| 0 <= j < e.len() && e[j].0 == k;
        assert(count_of(m, e[j].0) == Some(e[j].1));
    }
    assert(commands_from(e) =~= m);
}

/// Where the folder names are unique, the commands that the folder list gives for a folder are
/// those of its entry.
proof fn lemma_folder_from_maps(h: Seq<(Seq<char>, Map<Seq<char>, u32>)>, mv: Seq<(Seq<char>, Seq<(Seq<char>, u32)>)>, f: Seq<char>)
    requires
        unique_folders(h),
        maps_of(h, mv),
    ensures
        folder_from_maps(mv, f) == folder_commands(h, f),
    decreases mv.len(),
{
    if mv.len() > 0 {
        let n = mv.len() - 1;
        if mv[n].0 == f {
            lemma_commands_from_list(h[n].1, mv[n].1);
            assert(h[n].0 == f);
            let i = choose|i: int| 0 <= i < h.len() && #[trigger] h[i].0 == f;
            if i != n {
                assert(h[i].0 != h[n].0);
            }
        } else {
            let hd = h.drop_last();
            let md = mv.drop_last();
            assert forall|a: int, b: int| 0 <= a < b < hd.len() implies #[trigger] hd[a].0 != #[trigger] hd[b].0 by {
                assert(hd[a] == h[a] && hd[b] == h[b]);
            }
            assert forall|i: int| 0 <= i < md.len() implies (#[trigger] md[i]).0 == hd[i].0 && lists_commands(hd[i].1, md[i].1) by {
                assert(md[i] == mv[i] && hd[i] == h[i]);
            }
            lemma_folder_from_maps(hd, md, f);
            if exists|i: int| 0 <= i < h.len() && #[trigger] h[i].0 == f {
                let i = choose|i: int| 0 <= i < h.len() && #[trigger] h[i].0 == f;
                assert(i < n);
                assert(hd[i].0 == f);
                let i2 = choose|i: int| 0 <= i < hd.len() && #[trigger] hd[i].0 == f;
                if i2 != i {
                    assert(h[i2].0 == f);
                    if i2 < i {
                        assert(h[i2].0 != h[i].0);
                    } else {
                        assert(h[i].0 != h[i2].0);
                    }
                }
            } else {
                assert forall|i: int| 0 <= i < hd.len() implies #[trigger] hd[i].0 != f by {
                    assert(hd[i] == h[i]);
                }
            }
        }
    }
}

/// What the bytes of a saved history decode to: for each folder, the commands entered there
/// with their counts; `None` for bytes that are no such encoding.
pub uninterp spec fn decoded_history(bytes: Seq<u8>) -> Option<Map<Seq<char>, Map<Seq<char>, u32>>>;

/// `mv` lists the folders of `m` exactly: every folder once, with an exact list of its
/// commands.
pub open spec fn lists_map(mv: Seq<(Seq<char>, Seq<(Seq<char>, u32)>)>, m: Map<Seq<char>, Map<Seq<char>, u32>>) -> bool {
    &&& forall|i: int, j: int| 0 <= i < j < mv.len() ==> #[trigger] mv[i].0 != #[trigger] mv[j].0
    &&& forall|i: int| 0 <= i < mv.len() ==> m.dom().contains(#[trigger] mv[i].0) && lists_commands(m[mv[i].0], mv[i].1)
    &&& forall|f: Seq<char>| #[trigger] m.dom().contains(f) ==> exists|i: int| 0 <= i < mv.len() && mv[i].0 == f
}

/// The folders of a list, each with the commands of its last entry.
pub open spec fn maps_map(mv: Seq<(Seq<char>, Seq<(Seq<char>, u32)>)>) -> Map<Seq<char>, Map<Seq<char>, u32>> {
    Map::new(|f: Seq<char>| folder_from_maps(mv, f) is Some, |f: Seq<char>| folder_from_maps(mv, f)->0)
}

/// The commands of `folder` in `m`, if it has an entry.
pub open spec fn map_folder(m: Map<Seq<char>, Map<Seq<char>, u32>>, folder: Seq<char>) -> Option<Map<Seq<char>, u32>> {
    if m.dom().contains(folder) {
        Some(m[folder])
    } else {
        None
    }
}

/// `bincode::deserialize` into a map from folders to maps from commands to counts, listed as
/// folders with their commands. It fails exactly on bytes that are no such encoding; the
/// error's text is not stated.
#[verifier::external_body]
fn decode_history_maps(bytes: &[u8]) -> (r: Result<Vec<(String, Vec<(String, u32)>)>, String>)
    ensures
        r is Ok <==> decoded_history(bytes@) is Some,
        r matches Ok(v) ==> lists_map(maps_view(v@), decoded_history(bytes@)->0),
{
    match bincode::deserialize::<HashMap<String, HashMap<String, u32>>>(bytes) {
        Ok(m) => Ok(m.into_iter().map(|(d, c)| (d, c.into_iter().collect())).collect()),
        Err(e) => Err(e.to_string()),
    }
}

/// `bincode::serialize` of the map from folders to maps from commands to counts that the list
/// gives (a later entry of a folder or a command replaces an earlier one). Decoding the bytes
/// gives that map back. Which bytes come out depends on the order in which the hash maps are
/// walked, and is not stated.
#[verifier::external_body]
fn encode_history_maps(maps: &Vec<(String, Vec<(String, u32)>)>) -> (r: Vec<u8>)
    ensures
        decoded_history(r@) == Some(maps_map(maps_view(maps@))),
{
    let m: HashMap<String, HashMap<String, u32>> = maps.iter().map(|(d, c)| (d.clone(), c.iter().cloned().collect())).collect();
    match bincode::serialize(&m) {
        Ok(b) => b,
        Err(_) => Vec::new(),
    }
}

/// A list that names each folder of a map once, with its exact commands, gives that map's
/// folders.
proof fn lemma_lists_map(mv: Seq<(Seq<char>, Seq<(Seq<char>, u32)>)>, m: Map<Seq<char>, Map<Seq<char>, u32>>, f: Seq<char>)
    requires
        lists_map(mv, m),
    ensures
        folder_from_maps(mv, f) == map_folder(m, f),
{
    let h = Seq::new(mv.len(), |i: int| (mv[i].0, m[mv[i].0]));
    assert(unique_folders(h)) by {
        assert forall|i: int, j: int| 0 <= i < j < h.len() implies #[trigger] h[i].0 != #[trigger] h[j].0 by {
            assert(mv[i].0 != mv[j].0);
        }
    }
    assert(maps_of(h, mv)) by {
        assert forall|i: int| 0 <= i < mv.len() implies (#[trigger] mv[i]).0 == h[i].0 && lists_commands(h[i].1, mv[i].1) by {
            assert(m.dom().contains(mv[i].0));
        }
    }
    lemma_folder_from_maps(h, mv, f);
    if m.dom().contains(f) {
        let i = choose|i: int| 0 <= i < mv.len() && mv[i].0 == f;
        assert(h[i].0 == f);
        lemma_folder_at(h, i);
    } else {
        assert forall|i: int| 0 <= i < h.len() implies #[trigger] h[i].0 != f by {
            assert(m.dom().contains(mv[i].0));
        }
    }
}

/// Saving the folders with their commands and loading them again gives the same history: the
/// commands of every folder are those that were saved.
pub proof fn law_history_round_trip(h: Seq<(Seq<char>, Map<Seq<char>, u32>)>, mv: Seq<(Seq<char>, Seq<(Seq<char>, u32)>)>)
    requires
        unique_folders(h),
        maps_of(h, mv),
    ensures
        forall|f: Seq<char>| #[trigger] folder_from_maps(mv, f) == folder_commands(h, f),
{
    assert forall|f: Seq<char>| #[trigger] folder_from_maps(mv, f) == folder_commands(h, f) by {
        lemma_folder_from_maps(h, mv, f);
    }
}

proof fn lemma_folder_at(v: Seq<(Seq<char>, Map<Seq<char>, u32>)>, k: int)
    requires
        unique_folders(v),
        0 <= k < v.len(),
    ensures
        folder_commands(v, v[k].0) == Some(v[k].1),
{
    let f = v[k].0;
    assert(v[k].0 == f);
    let c = choose|i: int| 0 <= i < v.len() && #[trigger] v[i].0 == f;
    if c != k {
        if c < k {
            assert(v[c].0 != v[k].0);
        } else {
            assert(v[k].0 != v[c].0);
        }
    }
}

proof fn lemma_folder_update(v: Seq<(Seq<char>, Map<Seq<char>, u32>)>, k: int, m: Map<Seq<char>, u32>)
    requires
        unique_folders(v),
        0 <= k < v.len(),
    ensures
        unique_folders(v.update(k, (v[k].0, m))),
        folder_commands(v.update(k, (v[k].0, m)), v[k].0) == Some(m),
        forall|f: Seq<char>| f != v[k].0 ==> #[trigger] folder_commands(v.update(k, (v[k].0, m)), f) == folder_commands(v, f),
{
    let u = v.update(k, (v[k].0, m));
    assert forall|a: int, b: int| 0 <= a < b < u.len() implies #[trigger] u[a].0 != #[trigger] u[b].0 by {
        assert(u[a].0 == v[a].0 && u[b].0 == v[b].0);
    }
    lemma_folder_at(u, k);
    assert forall|f: Seq<char>| f != v[k].0 implies #[trigger] folder_commands(u, f) == folder_commands(v, f) by {
        if exists|i: int| 0 <= i < v.len() && #[trigger] v[i].0 == f {
            let i = choose|i: int| 0 <= i < v.len() && #[trigger] v[i].0 == f;
            assert(u[i].0 == f);
            lemma_folder_at(v, i);
            lemma_folder_at(u, i);
        } else {
            assert forall|i: int| 0 <= i < u.len() implies #[trigger] u[i].0 != f by {
                if i != k {
                    assert(u[i] == v[i]);
                }
            }
        }
    }
}

proof fn lemma_folder_insert(
    v: Seq<(Seq<char>, Map<Seq<char>, u32>)>,
    k: int,
    d: Seq<char>,
    m: Map<Seq<char>, u32>,
    f: Seq<char>,
)
    requires
        unique_folders(v),
        0 <= k <= v.len(),
        forall|i: int| 0 <= i < v.len() ==> #[trigger] v[i].0 != d,
    ensures
        unique_folders(v.insert(k, (d, m))),
        folder_commands(v.insert(k, (d, m)), f) == if f == d {
            Some(m)
        } else {
            folder_commands(v, f)
        },
{
    let u = v.insert(k, (d, m));
    assert forall|a: int, b: int| 0 <= a < b < u.len() implies #[trigger] u[a].0 != #[trigger] u[b].0 by {
        if a < k {
            assert(u[a] == v[a]);
        } else if a > k {
            assert(u[a] == v[a - 1]);
        }
        if b < k {
            assert(u[b] == v[b]);
        } else if b > k {
            assert(u[b] == v[b - 1]);
        }
    }
    if f == d {
        lemma_folder_at(u, k);
    } else if exists|i: int| 0 <= i < v.len() && #[trigger] v[i].0 == f {
        let i = choose|i: int| 0 <= i < v.len() && #[trigger] v[i].0 == f;
        let j = if i < k { i } else { i + 1 };
        assert(u[j] == v[i]);
        lemma_folder_at(v, i);
        lemma_folder_at(u, j);
    } else {
        assert forall|i: int| 0 <= i < u.len() implies #[trigger] u[i].0 != f by {
            if i < k {
                assert(u[i] == v[i]);
            } else if i > k {
                assert(u[i] == v[i - 1]);
            }
        }
    }
}

proof fn lemma_folder_push(v: Seq<(Seq<char>, Map<Seq<char>, u32>)>, d: Seq<char>, m: Map<Seq<char>, u32>, f: Seq<char>)
    requires
        unique_folders(v),
        forall|i: int| 0 <= i < v.len() ==> #[trigger] v[i].0 != d,
    ensures
        folder_commands(v.push((d, m)), f) == if f == d {
            Some(m)
        } else {
            folder_commands(v, f)
        },
{
    let u = v.push((d, m));
    assert forall|a: int, b: int| 0 <= a < b < u.len() implies #[trigger] u[a].0 != #[trigger] u[b].0 by {
        if b < v.len() {
            assert(u[a] == v[a] && u[b] == v[b]);
        } else {
            assert(u[a] == v[a]);
        }
    }
    if f == d {
        lemma_folder_at(u, v.len() as int);
    } else if exists|i: int| 0 <= i < v.len() && #[trigger] v[i].0 == f {
        let i = choose|i: int| 0 <= i < v.len() && #[trigger] v[i].0 == f;
        assert(u[i] == v[i]);
        lemma_folder_at(v, i);
        lemma_folder_at(u, i);
    } else {
        assert forall|i: int| 0 <= i < u.len() implies #[trigger] u[i].0 != f by {
            if i < v.len() {
                assert(u[i] == v[i]);
            }
        }
    }
}

} // verus!
