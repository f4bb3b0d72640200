//! The store root: the tree of label directories and document files that
//! the ledger reads and writes.
//!
//! A `StoreRoot` holds the tree as plain values. Whoever owns the real
//! directory fills a `StoreRoot` from it, runs ledger operations on the
//! value, and writes the result back.

use vstd::prelude::*;
use crate::revision::check_for_conflict;
use crate::revision::diverges;
use crate::revision::texts;

verus! {

/// What one document file holds: every persisted attribute, with the
/// payload as its bytes in the interchange format.
#[derive(Debug)]
pub struct DocImage {
    pub label: String,
    pub uuid: String,
    pub rev: String,
    pub data: Vec<u8>,
    pub seq: i64,
    pub encrypted_data: Vec<u8>,
    pub encrypted: bool,
    pub has_been_decrypted: bool,
    pub rev_history: Vec<String>,
}

/// The mathematical content of a `DocImage`.
pub ghost struct ImageView {
    pub label: Seq<char>,
    pub uuid: Seq<char>,
    pub rev: Seq<char>,
    pub data: Seq<u8>,
    pub seq: int,
    pub encrypted_data: Seq<u8>,
    pub encrypted: bool,
    pub has_been_decrypted: bool,
    pub rev_history: Seq<Seq<char>>,
}

impl ImageView {
    /// The image's revision chain: its history followed by its revision.
    pub open spec fn chain(self) -> Seq<Seq<char>> {
        self.rev_history.push(self.rev)
    }
}

impl View for DocImage {
    type V = ImageView;

    open spec fn view(&self) -> ImageView {
        ImageView {
            label: self.label@,
            uuid: self.uuid@,
            rev: self.rev@,
            data: self.data@,
            seq: self.seq as int,
            encrypted_data: self.encrypted_data@,
            encrypted: self.encrypted,
            has_been_decrypted: self.has_been_decrypted,
            rev_history: texts(self.rev_history@),
        }
    }
}

/// A copy of a byte vector.
pub fn copy_bytes(v: &Vec<u8>) -> (r: Vec<u8>)
    ensures
        r@ == v@,
{
    let mut r: Vec<u8> = Vec::new();
    let mut i: usize = 0;
    while i < v.len()
        invariant
            i <= v.len(),
            r@ == v@.subrange(0, i as int),
        decreases v.len() - i,
    {
        r.push(v[i]);
        assert(r@ =~= v@.subrange(0, i + 1));
        i = i + 1;
    }
    assert(v@.subrange(0, v.len() as int) =~= v@);
    r
}

/// A copy of a list of strings.
pub fn copy_strings(v: &Vec<String>) -> (r: Vec<String>)
    ensures
        r@ == v@,
{
    let mut r: Vec<String> = Vec::new();
    let mut i: usize = 0;
    while i < v.len()
        invariant
            i <= v.len(),
            r@ == v@.subrange(0, i as int),
        decreases v.len() - i,
    {
        r.push(v[i].clone());
        assert(r@ =~= v@.subrange(0, i + 1));
        i = i + 1;
    }
    assert(v@.subrange(0, v.len() as int) =~= v@);
    r
}

impl DocImage {
    /// Runs the conflict policy between the image on disk and an incoming
    /// one: whether the incoming chain fails to extend the one on disk.
    pub fn conflicts_with(&self, incoming: &DocImage) -> (conflict: bool)
        ensures
            conflict == diverges(self@.chain(), incoming@.chain()),
    {
        check_for_conflict(&self.rev_history, &self.rev, &incoming.rev_history, &incoming.rev)
    }

    /// A copy of the image.
    pub fn duplicate(&self) -> (r: Self)
        ensures
            r@ == self@,
    {
        DocImage {
            label: self.label.clone(),
            uuid: self.uuid.clone(),
            rev: self.rev.clone(),
            data: copy_bytes(&self.data),
            seq: self.seq,
            encrypted_data: copy_bytes(&self.encrypted_data),
            encrypted: self.encrypted,
            has_been_decrypted: self.has_been_decrypted,
            rev_history: copy_strings(&self.rev_history),
        }
    }
}

/// One file of the tree: the directory it is in, its name without the
/// extension, and what it holds.
pub struct DocFile {
    pub label: String,
    pub stem: String,
    pub image: DocImage,
}

/// A file's place in the tree: its directory label and its stem.
pub type FileKey = (Seq<char>, Seq<char>);

/// The mathematical content of a `StoreRoot`.
pub ghost struct RootView {
    /// The path of the root directory itself.
    pub path: Seq<char>,
    /// The labels of the directories that exist.
    pub dirs: Set<Seq<char>>,
    /// The files that exist, by place.
    pub files: Map<FileKey, ImageView>,
}

impl RootView {
    /// The file at `label`/`stem`, if there is one.
    pub open spec fn file(self, label: Seq<char>, stem: Seq<char>) -> Option<ImageView> {
        if self.files.contains_key((label, stem)) {
            Some(self.files[(label, stem)])
        } else {
            None
        }
    }

    /// The stems of the files in directory `label`.
    pub open spec fn stems(self, label: Seq<char>) -> Set<Seq<char>> {
        Set::new(|stem: Seq<char>| self.files.contains_key((label, stem)))
    }

    /// The tree after `image` is written at `label`/`stem`.
    pub open spec fn written(self, label: Seq<char>, stem: Seq<char>, image: ImageView) -> RootView {
        RootView {
            path: self.path,
            dirs: self.dirs.insert(label),
            files: self.files.insert((label, stem), image),
        }
    }

    /// The tree after the file at `label`/`stem` is deleted.
    pub open spec fn without(self, label: Seq<char>, stem: Seq<char>) -> RootView {
        RootView { path: self.path, dirs: self.dirs, files: self.files.remove((label, stem)) }
    }

    /// The tree after directory `label` is created.
    pub open spec fn with_dir(self, label: Seq<char>) -> RootView {
        RootView { path: self.path, dirs: self.dirs.insert(label), files: self.files }
    }
}

/// A file written into a directory joins its stems, a file deleted
/// leaves them, and the stems of every other directory stay as they are.
pub proof fn law_stems_follow_files(
    root: RootView,
    label: Seq<char>,
    stem: Seq<char>,
    image: ImageView,
    other: Seq<char>,
)
    requires
        other != label,
    ensures
        root.written(label, stem, image).stems(label) == root.stems(label).insert(stem),
        root.without(label, stem).stems(label) == root.stems(label).remove(stem),
        root.written(label, stem, image).stems(other) == root.stems(other),
        root.without(label, stem).stems(other) == root.stems(other),
        root.with_dir(label).stems(other) == root.stems(other),
        root.with_dir(label).stems(label) == root.stems(label),
{
    assert(root.written(label, stem, image).stems(label) =~= root.stems(label).insert(stem));
    assert(root.without(label, stem).stems(label) =~= root.stems(label).remove(stem));
    assert(root.written(label, stem, image).stems(other) =~= root.stems(other));
    assert(root.without(label, stem).stems(other) =~= root.stems(other));
    assert(root.with_dir(label).stems(other) =~= root.stems(other));
    assert(root.with_dir(label).stems(label) =~= root.stems(label));
}

/// The tree under the store root.
pub struct StoreRoot {
    path: String,
    dirs: Vec<String>,
    files: Vec<DocFile>,
}

/// The files of a list, by place; a later entry replaces an earlier one at
/// the same place.
pub open spec fn files_map(s: Seq<DocFile>) -> Map<FileKey, ImageView>
    decreases s.len(),
{
    if s.len() == 0 {
        Map::empty()
    } else {
        files_map(s.drop_last()).insert((s.last().label@, s.last().stem@), s.last().image@)
    }
}

/// The stems of the entries of a list that lie in directory `label`, in
/// list order.
pub open spec fn stems_of(s: Seq<DocFile>, label: Seq<char>) -> Seq<Seq<char>>
    decreases s.len(),
{
    if s.len() == 0 {
        Seq::empty()
    } else if s.last().label@ == label {
        stems_of(s.drop_last(), label).push(s.last().stem@)
    } else {
        stems_of(s.drop_last(), label)
    }
}

spec fn at_place(f: DocFile, key: FileKey) -> bool {
    f.label@ == key.0 && f.stem@ == key.1
}

proof fn lemma_absent(s: Seq<DocFile>, key: FileKey)
    requires
        forall|j: int| 0 <= j < s.len() ==> !at_place(s[j], key),
    ensures
        !files_map(s).contains_key(key),
    decreases s.len(),
{
    if s.len() > 0 {
        lemma_absent(s.drop_last(), key);
        assert(!at_place(s.last(), key));
    }
}

proof fn lemma_last_match(s: Seq<DocFile>, key: FileKey, i: int)
    requires
        0 <= i < s.len(),
        at_place(s[i], key),
        forall|j: int| i < j < s.len() ==> !at_place(s[j], key),
    ensures
        files_map(s).contains_key(key),
        files_map(s)[key] == s[i].image@,
    decreases s.len(),
{
    if i < s.len() - 1 {
        lemma_last_match(s.drop_last(), key, i);
        assert(!at_place(s.last(), key));
    }
}

proof fn lemma_remove_match(s: Seq<DocFile>, key: FileKey, i: int)
    requires
        0 <= i < s.len(),
        at_place(s[i], key),
    ensures
        files_map(s.remove(i)).remove(key) == files_map(s).remove(key),
    decreases s.len(),
{
    if i == s.len() - 1 {
        assert(s.remove(i) =~= s.drop_last());
        assert(files_map(s).remove(key) =~= files_map(s.drop_last()).remove(key));
    } else {
        lemma_remove_match(s.drop_last(), key, i);
        let t = s.remove(i);
        assert(t.drop_last() =~= s.drop_last().remove(i));
        assert(t.last() == s.last());
        let k = (s.last().label@, s.last().stem@);
        let a = files_map(t.drop_last());
        let b = files_map(s.drop_last());
        assert(a.remove(key) == b.remove(key));
        assert(files_map(t) == a.insert(k, s.last().image@));
        assert(files_map(s) == b.insert(k, s.last().image@));
        assert forall|x: FileKey| #[trigger]
            a.insert(k, s.last().image@).remove(key).contains_key(x) == b.insert(
                k,
                s.last().image@,
            ).remove(key).contains_key(x) by {
            assert(a.remove(key).contains_key(x) == b.remove(key).contains_key(x));
        }
        assert forall|x: FileKey| #[trigger]
            a.insert(k, s.last().image@).remove(key).contains_key(x) implies a.insert(
            k,
            s.last().image@,
        ).remove(key)[x] == b.insert(k, s.last().image@).remove(key)[x] by {
            if x != k {
                assert(a.remove(key)[x] == b.remove(key)[x]);
            }
        }
        assert(files_map(t).remove(key) =~= files_map(s).remove(key));
    }
}

/// No two files of the list share a place.
pub open spec fn distinct_places(s: Seq<DocFile>) -> bool {
    forall|i: int, j: int|
        0 <= i < j < s.len() ==> !(s[i].label@ == s[j].label@ && s[i].stem@ == s[j].stem@)
}

proof fn lemma_present(s: Seq<DocFile>, key: FileKey, i: int)
    requires
        0 <= i < s.len(),
        at_place(s[i], key),
    ensures
        files_map(s).contains_key(key),
    decreases s.len(),
{
    if i < s.len() - 1 {
        lemma_present(s.drop_last(), key, i);
    }
}

proof fn lemma_stems_are_distinct(s: Seq<DocFile>, label: Seq<char>)
    requires
        distinct_places(s),
    ensures
        stems_of(s, label).no_duplicates(),
    decreases s.len(),
{
    if s.len() > 0 {
        let rest = s.drop_last();
        assert(distinct_places(rest)) by {
            assert forall|i: int, j: int| 0 <= i < j < rest.len() implies !(rest[i].label@
                == rest[j].label@ && rest[i].stem@ == rest[j].stem@) by {
                assert(rest[i] == s[i] && rest[j] == s[j]);
            }
        }
        lemma_stems_are_distinct(rest, label);
        if s.last().label@ == label {
            let key = (label, s.last().stem@);
            assert forall|j: int| 0 <= j < rest.len() implies !at_place(rest[j], key) by {
                assert(rest[j] == s[j]);
                assert(s.last() == s[s.len() - 1]);
            }
            lemma_absent(rest, key);
            lemma_stems_of(rest, label, s.last().stem@);
            let before = stems_of(rest, label);
            let all = before.push(s.last().stem@);
            assert forall|i: int, j: int| 0 <= i < all.len() && 0 <= j < all.len() && i
                != j implies all[i] != all[j] by {
                if i < before.len() && j < before.len() {
                    assert(before[i] != before[j]);
                } else if i < before.len() {
                    assert(before.contains(before[i]));
                } else {
                    assert(before.contains(before[j]));
                }
            }
        }
    }
}

proof fn lemma_stems_of(s: Seq<DocFile>, label: Seq<char>, stem: Seq<char>)
    ensures
        stems_of(s, label).contains(stem) <==> files_map(s).contains_key((label, stem)),
    decreases s.len(),
{
    if s.len() > 0 {
        lemma_stems_of(s.drop_last(), label, stem);
        let rest = stems_of(s.drop_last(), label);
        if s.last().label@ == label {
            let all = rest.push(s.last().stem@);
            if rest.contains(stem) {
                let j = choose|j: int| 0 <= j < rest.len() && rest[j] == stem;
                assert(all[j] == stem);
            }
            if s.last().stem@ == stem {
                assert(all[rest.len() as int] == stem);
            }
        }
    }
}

impl View for StoreRoot {
    type V = RootView;

    closed spec fn view(&self) -> RootView {
        RootView {
            path: self.path@,
            dirs: texts(self.dirs@).to_set(),
            files: files_map(self.files@),
        }
    }
}

impl StoreRoot {
    #[verifier::type_invariant]
    spec fn wf(self) -> bool {
        distinct_places(self.files@)
    }

    /// The stems of the files in directory `label`, in the order in which
    /// a listing gives them.
    pub closed spec fn listing(&self, label: Seq<char>) -> Seq<Seq<char>> {
        stems_of(self.files@, label)
    }

    /// A listing names exactly the files of the directory.
    pub proof fn law_listing(&self, label: Seq<char>)
        ensures
            self.listing(label).to_set() == self@.stems(label),
    {
        assert forall|stem: Seq<char>|
            self.listing(label).to_set().contains(stem) <==> self@.stems(label).contains(
                stem,
            ) by {
            lemma_stems_of(self.files@, label, stem);
        }
        assert(self.listing(label).to_set() =~= self@.stems(label));
    }

    /// An empty tree rooted at `path`.
    pub fn new(path: &str) -> (r: Self)
        ensures
            r@.path == path@,
            r@.dirs == Set::<Seq<char>>::empty(),
            r@.files == Map::<FileKey, ImageView>::empty(),
    {
        let r = StoreRoot { path: path.to_owned(), dirs: Vec::new(), files: Vec::new() };
        assert(texts(r.dirs@).to_set() =~= Set::<Seq<char>>::empty());
        r
    }

    /// The path of the root directory.
    pub fn path(&self) -> (p: &str)
        ensures
            p@ == self@.path,
    {
        self.path.as_str()
    }

    /// Whether directory `label` exists.
    pub fn dir_exists(&self, label: &str) -> (b: bool)
        ensures
            b == self@.dirs.contains(label@),
    {
        let wanted: String = label.to_owned();
        let mut i: usize = 0;
        while i < self.dirs.len()
            invariant
                i <= self.dirs.len(),
                wanted@ == label@,
                forall|j: int| 0 <= j < i ==> self.dirs@[j]@ != label@,
            decreases self.dirs.len() - i,
        {
            if self.dirs[i] == wanted {
                assert(texts(self.dirs@)[i as int] == label@);
                return true;
            }
            i = i + 1;
        }
        assert forall|j: int| 0 <= j < texts(self.dirs@).len() implies texts(self.dirs@)[j]
            != label@ by {}
        false
    }

    /// Creates directory `label` unless it exists.
    pub fn create_dir(&mut self, label: &str)
        ensures
            final(self)@ == old(self)@.with_dir(label@),
    {
        proof {
            use_type_invariant(&*self);
        }
        if !self.dir_exists(label) {
            let ghost before = self.dirs@;
            let mut dirs: Vec<String> = Vec::new();
            std::mem::swap(&mut dirs, &mut self.dirs);
            dirs.push(label.to_owned());
            self.dirs = dirs;
            proof {
                let after = self.dirs@;
                assert(texts(after) =~= texts(before).push(label@));
                assert(texts(after).to_set() =~= texts(before).to_set().insert(label@)) by {
                    assert forall|l: Seq<char>|
                        texts(after).to_set().contains(l) <==> texts(before).to_set().insert(
                            label@,
                        ).contains(l) by {
                        if texts(before).contains(l) {
                            let j = choose|j: int| 0 <= j < before.len() && texts(before)[j] == l;
                            assert(texts(after)[j] == l);
                        }
                        if l == label@ {
                            assert(texts(after)[before.len() as int] == l);
                        }
                    }
                }
            }
        } else {
            assert(self@.dirs.insert(label@) =~= self@.dirs);
        }
    }

    /// The labels of the directories that exist.
    pub fn dir_labels(&self) -> (r: Vec<String>)
        ensures
            texts(r@).to_set() == self@.dirs,
    {
        copy_strings(&self.dirs)
    }

    fn find(&self, label: &String, stem: &String) -> (r: Option<usize>)
        ensures
            match r {
                Some(i) => i < self.files@.len() && at_place(self.files@[i as int], (label@, stem@))
                    && self@.files.contains_key((label@, stem@)) && self@.files[(label@, stem@)]
                    == self.files@[i as int].image@,
                None => !self@.files.contains_key((label@, stem@)),
            },
    {
        let ghost key = (label@, stem@);
        let mut i: usize = self.files.len();
        while i > 0
            invariant
                i <= self.files.len(),
                key == (label@, stem@),
                forall|j: int| i <= j < self.files@.len() ==> !at_place(self.files@[j], key),
            decreases i,
        {
            i = i - 1;
            if self.files[i].label == *label && self.files[i].stem == *stem {
                proof {
                    lemma_last_match(self.files@, key, i as int);
                }
                return Some(i);
            }
        }
        proof {
            lemma_absent(self.files@, key);
        }
        None
    }

    /// Whether a file exists at `label`/`stem`.
    pub fn file_exists(&self, label: &str, stem: &str) -> (b: bool)
        ensures
            b == self@.files.contains_key((label@, stem@)),
    {
        self.find(&label.to_owned(), &stem.to_owned()).is_some()
    }

    /// What the file at `label`/`stem` holds, if it exists.
    pub fn read_file(&self, label: &str, stem: &str) -> (r: Option<DocImage>)
        ensures
            match r {
                Some(image) => self@.file(label@, stem@) == Some(image@),
                None => self@.file(label@, stem@).is_none(),
            },
    {
        match self.find(&label.to_owned(), &stem.to_owned()) {
            Some(i) => Some(self.files[i].image.duplicate()),
            None => None,
        }
    }

    /// Deletes the file at `label`/`stem`; tells whether there was one.
    pub fn remove_file(&mut self, label: &str, stem: &str) -> (existed: bool)
        ensures
            existed == old(self)@.files.contains_key((label@, stem@)),
            final(self)@ == old(self)@.without(label@, stem@),
    {
        let ghost key = (label@, stem@);
        let found = self.find(&label.to_owned(), &stem.to_owned());
        proof {
            use_type_invariant(&*self);
        }
        match found {
            None => {
                assert(self@.files =~= self@.files.remove(key));
                false
            },
            Some(i) => {
                let ghost before = self.files@;
                let mut files: Vec<DocFile> = Vec::new();
                std::mem::swap(&mut files, &mut self.files);
                let _gone = files.remove(i);
                proof {
                    lemma_remove_match(before, key, i as int);
                    let kept = before.remove(i as int);
                    assert forall|a: int, b: int| 0 <= a < b < kept.len() implies !(kept[a].label@
                        == kept[b].label@ && kept[a].stem@ == kept[b].stem@) by {
                        let a0 = if a < i {
                            a
                        } else {
                            a + 1
                        };
                        let b0 = if b < i {
                            b
                        } else {
                            b + 1
                        };
                        assert(kept[a] == before[a0] && kept[b] == before[b0]);
                    }
                    assert forall|j: int| 0 <= j < kept.len() implies !at_place(kept[j], key) by {
                        let j0 = if j < i {
                            j
                        } else {
                            j + 1
                        };
                        assert(kept[j] == before[j0]);
                    }
                    lemma_absent(kept, key);
                    assert(files_map(kept) =~= files_map(kept).remove(key));
                }
                self.files = files;
                true
            },
        }
    }

    /// Writes `image` at `label`/`stem`, creating the directory and
    /// replacing any file already there.
    pub fn write_file(&mut self, label: &str, stem: &str, image: DocImage)
        ensures
            final(self)@ == old(self)@.written(label@, stem@, image@),
    {
        let ghost key = (label@, stem@);
        self.create_dir(label);
        let _existed = self.remove_file(label, stem);
        let ghost mid = self.files@;
        let file = DocFile { label: label.to_owned(), stem: stem.to_owned(), image };
        proof {
            use_type_invariant(&*self);
            assert forall|j: int| 0 <= j < mid.len() implies !at_place(mid[j], key) by {
                if at_place(mid[j], key) {
                    lemma_present(mid, key, j);
                }
            }
        }
        let mut files: Vec<DocFile> = Vec::new();
        std::mem::swap(&mut files, &mut self.files);
        files.push(file);
        self.files = files;
        proof {
            assert(self.files@.drop_last() =~= mid);
            assert(files_map(self.files@) =~= files_map(old(self).files@).insert(key, image@));
        }
    }

    /// The stems of the files in directory `label`, or `None` when the
    /// directory does not exist.
    pub fn list_stems(&self, label: &str) -> (r: Option<Vec<String>>)
        ensures
            r.is_some() == self@.dirs.contains(label@),
            r matches Some(stems) ==> texts(stems@) == self.listing(label@),
            self.listing(label@).no_duplicates(),
    {
        proof {
            use_type_invariant(self);
            lemma_stems_are_distinct(self.files@, label@);
        }
        if !self.dir_exists(label) {
            return None;
        }
        let l: String = label.to_owned();
        let mut out: Vec<String> = Vec::new();
        let mut i: usize = 0;
        while i < self.files.len()
            invariant
                i <= self.files.len(),
                l@ == label@,
                texts(out@) == stems_of(self.files@.subrange(0, i as int), label@),
            decreases self.files.len() - i,
        {
            let ghost before = out@;
            let ghost next = self.files@.subrange(0, i + 1);
            assert(next.drop_last() =~= self.files@.subrange(0, i as int));
            if self.files[i].label == l {
                out.push(self.files[i].stem.clone());
                assert(texts(out@) =~= texts(before).push(self.files@[i as int].stem@));
            }
            i = i + 1;
        }
        assert(self.files@.subrange(0, self.files@.len() as int) =~= self.files@);
        Some(out)
    }
}

} // verus!
