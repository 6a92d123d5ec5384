//! Finding the files to measure.
//!
//! A [`Discovery`] walks a directory tree. It says which directory to list next
//! and is told its entries; it decides which directories to enter and which
//! files to keep. Symbolic links are not followed, so the walk cannot loop, and
//! a directory that cannot be listed is passed over.

use vstd::prelude::*;
use vstd::utf8::encode_utf8;

use crate::order::{
    is_stable_order, key_le, keys_of, lemma_stable_order_exists, stable_order, stable_order_of,
};
use crate::text::{chars_of, lowercase, same, small, small_of};

verus! {

// ── names and paths ─────────────────────────────────────────────────────────

/// The name of a directory entry.
pub enum Name {
    /// A name in UTF-8.
    Text(String),
    /// Any other name: its bytes, and a form of it that can be shown.
    Raw { bytes: Vec<u8>, shown: String },
}

/// A name as a value.
pub struct NameModel {
    pub bytes: Seq<u8>,
    /// The text of a name in UTF-8.
    pub text: Option<Seq<char>>,
    pub shown: Seq<char>,
}

/// The model of a name in UTF-8.
pub open spec fn text_name(s: Seq<char>) -> NameModel {
    NameModel { bytes: encode_utf8(s), text: Some(s), shown: s }
}

impl View for Name {
    type V = NameModel;

    open spec fn view(&self) -> NameModel {
        match self {
            Name::Text(s) => text_name(s@),
            Name::Raw { bytes, shown } => NameModel { bytes: bytes@, text: None, shown: shown@ },
        }
    }
}

/// A path below the root: the names that lead to it.
pub open spec fn path_of(names: Seq<Name>) -> Seq<NameModel> {
    names.map_values(|n: Name| n@)
}

/// The paths of a list.
pub open spec fn paths_of(v: Seq<Vec<Name>>) -> Seq<Seq<NameModel>> {
    v.map_values(|p: Vec<Name>| path_of(p@))
}

fn copy_bytes(v: &Vec<u8>) -> (r: Vec<u8>)
    ensures
        r@ == v@,
{
    let mut r: Vec<u8> = Vec::new();
    for i in 0..v.len()
        invariant
            r@ == v@.take(i as int),
    {
        r.push(v[i]);
        assert(v@.take(i + 1) == v@.take(i as int).push(v@[i as int]));
    }
    assert(v@.take(v@.len() as int) == v@);
    r
}

impl Name {
    /// The same name again.
    pub fn copy(&self) -> (r: Name)
        ensures
            r@ == self@,
    {
        match self {
            Name::Text(s) => Name::Text(s.clone()),
            Name::Raw { bytes, shown } => Name::Raw {
                bytes: copy_bytes(bytes),
                shown: shown.clone(),
            },
        }
    }
}

/// The path that leads to `name` in the directory `dir`.
fn child(dir: &Vec<Name>, name: &Name) -> (r: Vec<Name>)
    ensures
        path_of(r@) == path_of(dir@).push(name@),
{
    let mut r: Vec<Name> = Vec::new();
    for i in 0..dir.len()
        invariant
            path_of(r@) == path_of(dir@).take(i as int),
    {
        let ghost before = r@;
        r.push(dir[i].copy());
        assert(path_of(r@) == path_of(before).push(dir@[i as int]@));
        assert(path_of(dir@).take(i + 1) == path_of(dir@).take(i as int).push(dir@[i as int]@));
    }
    assert(path_of(dir@).take(dir@.len() as int) == path_of(dir@));
    let ghost before = r@;
    r.push(name.copy());
    assert(path_of(r@) == path_of(before).push(name@));
    r
}

/// The place of a name in the order of paths: its bytes, each above the mark that
/// ends the name.
pub open spec fn name_key(bytes: Seq<u8>) -> Seq<u64> {
    bytes.map_values(|b: u8| (b + 1) as u64).push(0)
}

/// The place of a path in the order of paths: name by name, each byte by byte, a
/// shorter one first.
pub open spec fn path_key(path: Seq<NameModel>) -> Seq<u64>
    decreases path.len(),
{
    if path.len() == 0 {
        Seq::empty()
    } else {
        path_key(path.drop_last()) + name_key(path.last().bytes)
    }
}

fn push_name_key(key: &mut Vec<u64>, bytes: &[u8])
    ensures
        final(key)@ == old(key)@ + name_key(bytes@),
{
    let ghost start = key@;
    let ghost marks = bytes@.map_values(|b: u8| (b + 1) as u64);
    for i in 0..bytes.len()
        invariant
            marks == bytes@.map_values(|b: u8| (b + 1) as u64),
            key@ == start + marks.take(i as int),
    {
        key.push(bytes[i] as u64 + 1);
        assert(key@ == start + marks.take(i + 1));
    }
    key.push(0);
    assert(marks.take(marks.len() as int) == marks);
    assert(key@ == start + name_key(bytes@));
}

fn path_key_of(path: &Vec<Name>) -> (key: Vec<u64>)
    ensures
        key@ == path_key(path_of(path@)),
{
    let ghost p = path_of(path@);
    let mut key: Vec<u64> = Vec::new();
    for i in 0..path.len()
        invariant
            p == path_of(path@),
            key@ == path_key(p.take(i as int)),
    {
        proof {
            assert(p.take(i + 1).drop_last() == p.take(i as int));
            assert(p.take(i + 1).last() == path@[i as int]@);
        }
        match &path[i] {
            Name::Text(s) => push_name_key(&mut key, s.as_str().as_bytes()),
            Name::Raw { bytes, .. } => push_name_key(&mut key, bytes.as_slice()),
        }
    }
    assert(p.take(p.len() as int) == p);
    key
}

/// The text of the path below `root`: the names behind the root with slashes
/// between them.
pub open spec fn joined(root: Seq<char>, path: Seq<NameModel>) -> Seq<char>
    decreases path.len(),
{
    if path.len() == 0 {
        root
    } else {
        let base = joined(root, path.drop_last());
        (if base.len() == 0 || base.last() == '/' {
            base
        } else {
            base.push('/')
        }) + path.last().shown
    }
}

/// Whether every name of a path is in UTF-8.
pub open spec fn in_utf8(path: Seq<NameModel>) -> bool {
    forall|i: int| 0 <= i < path.len() ==> (#[trigger] path[i]).text is Some
}

/// The path below `root` as a text that can be shown.
pub fn shown_path(root: &str, path: &Vec<Name>) -> (s: String)
    ensures
        s@ == joined(root@, path_of(path@)),
{
    let ghost p = path_of(path@);
    let mut s = root.to_owned();
    for i in 0..path.len()
        invariant
            p == path_of(path@),
            s@ == joined(root@, p.take(i as int)),
    {
        proof {
            assert(p.take(i + 1).drop_last() == p.take(i as int));
            assert(p.take(i + 1).last() == path@[i as int]@);
        }
        let v = chars_of(s.as_str());
        if v.len() > 0 && v[v.len() - 1] != '/' {
            s.push('/');
        }
        match &path[i] {
            Name::Text(t) => s.append(t.as_str()),
            Name::Raw { shown, .. } => s.append(shown.as_str()),
        }
    }
    assert(p.take(p.len() as int) == p);
    s
}

/// The path below `root` as a text, if it is in UTF-8.
pub fn text_path(root: &str, path: &Vec<Name>) -> (r: Option<String>)
    ensures
        r is Some == in_utf8(path_of(path@)),
        r is Some ==> r->0@ == joined(root@, path_of(path@)),
{
    for i in 0..path.len()
        invariant
            forall|j: int| 0 <= j < i ==> (#[trigger] path_of(path@)[j]).text is Some,
    {
        assert(path_of(path@)[i as int] == path@[i as int]@);
        match &path[i] {
            Name::Text(_) => {},
            Name::Raw { .. } => {
                return None;
            },
        }
    }
    Some(shown_path(root, path))
}

// ── the filter ──────────────────────────────────────────────────────────────

/// Which entries a walk keeps.
pub struct Filter {
    /// Skip entries whose name begins with a dot, directories as well.
    pub skip_hidden: bool,
    /// If there are any, keep only files with one of these extensions. They have
    /// no leading dot, and their case does not matter.
    pub extensions: Vec<String>,
}

/// A filter as a value.
pub struct FilterModel {
    pub skip_hidden: bool,
    pub extensions: Seq<Seq<char>>,
}

impl View for Filter {
    type V = FilterModel;

    open spec fn view(&self) -> FilterModel {
        FilterModel {
            skip_hidden: self.skip_hidden,
            extensions: self.extensions@.map_values(|e: String| e@),
        }
    }
}

impl Default for Filter {
    /// The filter that keeps everything.
    fn default() -> (f: Filter)
        ensures
            f@ == (FilterModel { skip_hidden: false, extensions: Seq::empty() }),
    {
        let f = Filter { skip_hidden: false, extensions: Vec::new() };
        assert(f@.extensions == Seq::<Seq<char>>::empty());
        f
    }
}

/// Whether a name is hidden: a name in UTF-8 that begins with a dot. The names of
/// a directory itself and of its parent are not.
pub open spec fn hidden(name: NameModel) -> bool {
    &&& name.text is Some
    &&& name.text->0.len() > 0 && name.text->0[0] == '.'
    &&& name.text->0 != "."@ && name.text->0 != ".."@
}

/// Whether a name is hidden.
pub fn is_hidden(name: &Name) -> (r: bool)
    ensures
        r == hidden(name@),
{
    match name {
        Name::Text(s) => !s.as_str().is_empty() && s.as_str().get_char(0) == '.' && !same(
            s.as_str(),
            ".",
        ) && !same(s.as_str(), ".."),
        Name::Raw { .. } => false,
    }
}

/// Where the last dot of a name is, if there is one.
pub open spec fn is_last_dot<T>(s: Seq<T>, dot: T, i: int) -> bool {
    0 <= i < s.len() && s[i] == dot && forall|j: int| i < j < s.len() ==> #[trigger] s[j] != dot
}

/// The extension of a file name: what follows its last dot. A dot in front does
/// not count, and the parent directory has no extension.
pub open spec fn extension<T>(s: Seq<T>, dot: T) -> Option<Seq<T>> {
    if s != seq![dot, dot] && exists|i: int| 0 < i && is_last_dot(s, dot, i) {
        Some(s.skip((choose|i: int| 0 < i && is_last_dot(s, dot, i)) + 1))
    } else {
        None
    }
}

/// A byte with an ASCII capital letter made small.
pub open spec fn small_byte(b: u8) -> u8 {
    if 65 <= b <= 90 {
        (b + 32) as u8
    } else {
        b
    }
}

/// Bytes with their ASCII capital letters made small.
pub open spec fn lowercase_bytes(s: Seq<u8>) -> Seq<u8> {
    s.map_values(|b: u8| small_byte(b))
}

/// Whether a name has the extension `want`, in whatever case.
pub open spec fn has_extension(name: NameModel, want: Seq<char>) -> bool {
    match name.text {
        Some(s) => match extension(s, '.') {
            Some(e) => lowercase(e) == lowercase(want),
            None => false,
        },
        None => match extension(name.bytes, 46u8) {
            Some(e) => lowercase_bytes(e) == lowercase_bytes(encode_utf8(want)),
            None => false,
        },
    }
}

impl FilterModel {
    /// Whether a file of this name is kept.
    pub open spec fn accepts(self, name: NameModel) -> bool {
        &&& !(self.skip_hidden && hidden(name))
        &&& self.extensions.len() == 0 || exists|i: int|
            0 <= i < self.extensions.len() && has_extension(name, #[trigger] self.extensions[i])
    }

    /// Whether a directory of this name is entered.
    pub open spec fn enters(self, name: NameModel) -> bool {
        !(self.skip_hidden && hidden(name))
    }
}

/// Where the extension of a name begins, if it has one.
pub(crate) fn extension_start<T: Copy + PartialEq>(v: &Vec<T>, dots: &Vec<bool>, Ghost(dot): Ghost<T>) -> (r:
    Option<usize>)
    requires
        dots@.len() == v@.len(),
        forall|i: int| 0 <= i < v@.len() ==> #[trigger] dots@[i] == (v@[i] == dot),
    ensures
        r is Some == extension(v@, dot) is Some,
        r is Some ==> r->0 <= v@.len() && extension(v@, dot) == Some(v@.skip(r->0 as int)),
{
    let n = v.len();
    if n == 2 && dots[0] && dots[1] {
        assert(v@ == seq![dot, dot]);
        return None;
    }
    assert(v@ != seq![dot, dot]) by {
        if v@ == seq![dot, dot] {
            assert(v@[0] == dot && v@[1] == dot);
        }
    }
    let mut i: usize = n;
    while i > 1
        invariant
            i <= n,
            n == v@.len(),
            dots@.len() == n,
            v@ != seq![dot, dot],
            forall|k: int| 0 <= k < n ==> #[trigger] dots@[k] == (v@[k] == dot),
            forall|k: int| i <= k < n ==> #[trigger] v@[k] != dot,
        decreases i,
    {
        i = i - 1;
        if dots[i] {
            proof {
                assert(is_last_dot(v@, dot, i as int));
                let j = choose|j: int| 0 < j && is_last_dot(v@, dot, j);
                assert(j == i) by {
                    if j < i {
                        assert(v@[i as int] != dot);
                    }
                    if i < j {
                        assert(v@[j] != dot);
                    }
                }
            }
            return Some(i + 1);
        }
        assert(v@[i as int] != dot);
    }
    assert(!(exists|j: int| 0 < j && is_last_dot(v@, dot, j)));
    None
}

fn same_ignoring_case(v: &Vec<char>, from: usize, want: &str) -> (r: bool)
    requires
        from <= v@.len(),
    ensures
        r == (lowercase(v@.skip(from as int)) == lowercase(want@)),
{
    let w = chars_of(want);
    let ghost e = v@.skip(from as int);
    if v.len() - from != w.len() {
        assert(lowercase(e).len() != lowercase(want@).len());
        return false;
    }
    for i in 0..w.len()
        invariant
            w@ == want@,
            e == v@.skip(from as int),
            from <= v@.len(),
            v.len() - from == w.len(),
            w.len() == w@.len(),
            forall|j: int| 0 <= j < i ==> small(#[trigger] e[j]) == small(w@[j]),
    {
        if small_of(v[from + i]) != small_of(w[i]) {
            assert(e[i as int] == v@[from + i]);
            assert(lowercase(e)[i as int] != lowercase(want@)[i as int]);
            return false;
        }
        assert(e[i as int] == v@[from + i]);
    }
    assert(lowercase(e) == lowercase(want@));
    true
}

fn small_byte_of(b: u8) -> (r: u8)
    ensures
        r == small_byte(b),
{
    if 65 <= b && b <= 90 {
        b + 32
    } else {
        b
    }
}

fn same_bytes_ignoring_case(v: &Vec<u8>, from: usize, want: &str) -> (r: bool)
    requires
        from <= v@.len(),
    ensures
        r == (lowercase_bytes(v@.skip(from as int)) == lowercase_bytes(encode_utf8(want@))),
{
    let w = want.as_bytes();
    let ghost e = v@.skip(from as int);
    if v.len() - from != w.len() {
        assert(lowercase_bytes(e).len() != lowercase_bytes(w@).len());
        return false;
    }
    for i in 0..w.len()
        invariant
            w@ == encode_utf8(want@),
            e == v@.skip(from as int),
            from <= v@.len(),
            v.len() - from == w.len(),
            w.len() == w@.len(),
            forall|j: int| 0 <= j < i ==> small_byte(#[trigger] e[j]) == small_byte(w@[j]),
    {
        assert(e[i as int] == v@[from + i]);
        if small_byte_of(v[from + i]) != small_byte_of(w[i]) {
            assert(lowercase_bytes(e)[i as int] != lowercase_bytes(w@)[i as int]);
            return false;
        }
    }
    assert(lowercase_bytes(e) == lowercase_bytes(w@));
    true
}

/// Whether a name has the extension `want`, in whatever case.
fn extension_is(name: &Name, want: &str) -> (r: bool)
    ensures
        r == has_extension(name@, want@),
{
    match name {
        Name::Text(s) => {
            let v = chars_of(s.as_str());
            let mut dots: Vec<bool> = Vec::new();
            for i in 0..v.len()
                invariant
                    dots@.len() == i,
                    forall|k: int| 0 <= k < i ==> #[trigger] dots@[k] == (v@[k] == '.'),
            {
                dots.push(v[i] == '.');
            }
            match extension_start(&v, &dots, Ghost('.')) {
                Some(from) => same_ignoring_case(&v, from, want),
                None => false,
            }
        },
        Name::Raw { bytes, .. } => {
            let mut dots: Vec<bool> = Vec::new();
            for i in 0..bytes.len()
                invariant
                    dots@.len() == i,
                    forall|k: int| 0 <= k < i ==> #[trigger] dots@[k] == (bytes@[k] == 46u8),
            {
                dots.push(bytes[i] == 46u8);
            }
            match extension_start(bytes, &dots, Ghost(46u8)) {
                Some(from) => same_bytes_ignoring_case(bytes, from, want),
                None => false,
            }
        },
    }
}

impl Filter {
    /// Whether a file of this name is kept.
    pub fn accepts_file(&self, name: &Name) -> (r: bool)
        ensures
            r == self@.accepts(name@),
    {
        if self.skip_hidden && is_hidden(name) {
            return false;
        }
        if self.extensions.len() == 0 {
            return true;
        }
        for i in 0..self.extensions.len()
            invariant
                !(self.skip_hidden && hidden(name@)),
                self.extensions@.len() > 0,
                forall|j: int| 0 <= j < i ==> !has_extension(name@, #[trigger] self@.extensions[j]),
        {
            if extension_is(name, self.extensions[i].as_str()) {
                assert(has_extension(name@, self@.extensions[i as int]));
                return true;
            }
        }
        false
    }

    /// Whether a directory of this name is entered.
    pub fn enters_dir(&self, name: &Name) -> (r: bool)
        ensures
            r == self@.enters(name@),
    {
        !(self.skip_hidden && is_hidden(name))
    }
}

// ── the walk ────────────────────────────────────────────────────────────────

/// What an entry is. Links and special files are neither file nor directory.
#[derive(Debug, Clone, Copy, PartialEq, Eq, Structural)]
pub enum EntryKind {
    File,
    Dir,
    Other,
}

/// An entry of a directory.
pub struct DirEntry {
    pub name: Name,
    pub kind: EntryKind,
}

/// An entry as a value.
pub struct EntryModel {
    pub name: NameModel,
    pub kind: EntryKind,
}

impl View for DirEntry {
    type V = EntryModel;

    open spec fn view(&self) -> EntryModel {
        EntryModel { name: self.name@, kind: self.kind }
    }
}

/// The entries of a list.
pub open spec fn entries_of(v: Seq<DirEntry>) -> Seq<EntryModel> {
    v.map_values(|e: DirEntry| e@)
}

/// Why there is nothing to walk.
#[derive(Debug, Clone, Copy, PartialEq, Eq, Structural)]
pub enum DiscoveryError {
    /// The root could not be examined; the system's error number.
    Os(i32),
    /// The root is neither a regular file nor a directory.
    NotAFileOrDirectory,
}

impl DiscoveryError {
    /// The message of an error that is not the system's.
    pub fn message(self) -> (r: Option<&'static str>)
        ensures
            r is Some == (self == DiscoveryError::NotAFileOrDirectory),
            r is Some ==> r->0@ == "path is neither a regular file nor a directory"@,
    {
        match self {
            DiscoveryError::Os(_) => None,
            DiscoveryError::NotAFileOrDirectory => Some(
                "path is neither a regular file nor a directory",
            ),
        }
    }
}

/// A walk under way.
pub struct Discovery {
    filter: Filter,
    stack: Vec<Vec<Name>>,
    files: Vec<Vec<Name>>,
}

/// The state of a walk.
pub struct DiscoveryState {
    pub filter: FilterModel,
    /// The directories still to be listed; the last one is next.
    pub stack: Seq<Seq<NameModel>>,
    /// The files found so far. The empty path is the root itself.
    pub files: Seq<Seq<NameModel>>,
}

impl View for Discovery {
    type V = DiscoveryState;

    closed spec fn view(&self) -> DiscoveryState {
        DiscoveryState {
            filter: self.filter@,
            stack: paths_of(self.stack@),
            files: paths_of(self.files@),
        }
    }
}

/// The keys by which the entries of a directory are visited: their names.
pub open spec fn entry_keys(entries: Seq<EntryModel>) -> Seq<Seq<u64>> {
    entries.map_values(|e: EntryModel| name_key(e.name.bytes))
}

/// The entries of a directory in the order of their names.
pub open spec fn by_name(entries: Seq<EntryModel>) -> Seq<EntryModel> {
    stable_order(entry_keys(entries)).map_values(|i: usize| entries[i as int])
}

/// The keys by which paths are ordered.
pub open spec fn path_keys(paths: Seq<Seq<NameModel>>) -> Seq<Seq<u64>> {
    paths.map_values(|p: Seq<NameModel>| path_key(p))
}

/// Paths in their order.
pub open spec fn by_path(paths: Seq<Seq<NameModel>>) -> Seq<Seq<NameModel>> {
    stable_order(path_keys(paths)).map_values(|i: usize| paths[i as int])
}

impl DiscoveryState {
    /// The state after one entry of the directory `dir`.
    pub open spec fn with_entry(self, dir: Seq<NameModel>, e: EntryModel) -> DiscoveryState {
        match e.kind {
            EntryKind::Dir => if self.filter.enters(e.name) {
                DiscoveryState { stack: self.stack.push(dir.push(e.name)), ..self }
            } else {
                self
            },
            EntryKind::File => if self.filter.accepts(e.name) {
                DiscoveryState { files: self.files.push(dir.push(e.name)), ..self }
            } else {
                self
            },
            EntryKind::Other => self,
        }
    }

    /// The state after some entries of the directory `dir`, taken in order.
    pub open spec fn with_entries(
        self,
        dir: Seq<NameModel>,
        entries: Seq<EntryModel>,
    ) -> DiscoveryState
        decreases entries.len(),
    {
        if entries.len() == 0 {
            self
        } else {
            self.with_entries(dir, entries.drop_last()).with_entry(dir, entries.last())
        }
    }

    /// The state after the listing of the directory `dir`.
    pub open spec fn after_listing(
        self,
        dir: Seq<NameModel>,
        entries: Seq<EntryModel>,
    ) -> DiscoveryState {
        self.with_entries(dir, by_name(entries))
    }

    /// The state with the next directory taken off the stack.
    pub open spec fn popped(self) -> DiscoveryState {
        DiscoveryState { stack: self.stack.drop_last(), ..self }
    }
}

/// Starts to look for files below a root, keeping all of them. `found` says what
/// the root is, or why it could not be examined.
pub fn collect_files(found: Result<EntryKind, i32>) -> (r: Result<Discovery, DiscoveryError>)
    ensures
        match found {
            Err(n) => r == Err::<Discovery, DiscoveryError>(DiscoveryError::Os(n)),
            Ok(EntryKind::Other) => r == Err::<Discovery, DiscoveryError>(
                DiscoveryError::NotAFileOrDirectory,
            ),
            Ok(EntryKind::File) => r is Ok && r->Ok_0@ == (DiscoveryState {
                filter: FilterModel { skip_hidden: false, extensions: Seq::empty() },
                stack: Seq::empty(),
                files: seq![Seq::empty()],
            }),
            Ok(EntryKind::Dir) => r is Ok && r->Ok_0@ == (DiscoveryState {
                filter: FilterModel { skip_hidden: false, extensions: Seq::empty() },
                stack: seq![Seq::empty()],
                files: Seq::empty(),
            }),
        },
{
    collect_files_filtered(found, Filter::default())
}

/// Starts to look for files below a root. A root that is a file is kept whatever
/// the filter says: it was asked for by name.
pub fn collect_files_filtered(found: Result<EntryKind, i32>, filter: Filter) -> (r: Result<
    Discovery,
    DiscoveryError,
>)
    ensures
        match found {
            Err(n) => r == Err::<Discovery, DiscoveryError>(DiscoveryError::Os(n)),
            Ok(EntryKind::Other) => r == Err::<Discovery, DiscoveryError>(
                DiscoveryError::NotAFileOrDirectory,
            ),
            Ok(EntryKind::File) => r is Ok && r->Ok_0@ == (DiscoveryState {
                filter: filter@,
                stack: Seq::empty(),
                files: seq![Seq::empty()],
            }),
            Ok(EntryKind::Dir) => r is Ok && r->Ok_0@ == (DiscoveryState {
                filter: filter@,
                stack: seq![Seq::empty()],
                files: Seq::empty(),
            }),
        },
{
    match found {
        Err(n) => Err(DiscoveryError::Os(n)),
        Ok(EntryKind::Other) => Err(DiscoveryError::NotAFileOrDirectory),
        Ok(EntryKind::File) => {
            let mut files: Vec<Vec<Name>> = Vec::new();
            files.push(Vec::new());
            let d = Discovery { filter, stack: Vec::new(), files };
            proof {
                assert(path_of(d.files@[0]@) == Seq::<NameModel>::empty());
                assert(d@.files == seq![Seq::<NameModel>::empty()]);
                assert(d@.stack == Seq::<Seq<NameModel>>::empty());
            }
            Ok(d)
        },
        Ok(EntryKind::Dir) => {
            let mut stack: Vec<Vec<Name>> = Vec::new();
            stack.push(Vec::new());
            let d = Discovery { filter, stack, files: Vec::new() };
            proof {
                assert(path_of(d.stack@[0]@) == Seq::<NameModel>::empty());
                assert(d@.stack == seq![Seq::<NameModel>::empty()]);
                assert(d@.files == Seq::<Seq<NameModel>>::empty());
            }
            Ok(d)
        },
    }
}

impl Discovery {
    /// Takes the next directory to list off the stack; none is left when the walk
    /// is over.
    pub fn next_dir(&mut self) -> (r: Option<Vec<Name>>)
        ensures
            r is None == (old(self)@.stack.len() == 0),
            r is None ==> final(self)@ == old(self)@,
            r is Some ==> path_of(r->0@) == old(self)@.stack.last() && final(self)@ == old(
                self,
            )@.popped(),
    {
        let r = self.stack.pop();
        proof {
            if r is Some {
                assert(self@.stack == old(self)@.stack.drop_last());
            }
        }
        r
    }

    fn entry(&mut self, dir: &Vec<Name>, e: &DirEntry)
        ensures
            final(self)@ == old(self)@.with_entry(path_of(dir@), e@),
    {
        match e.kind {
            EntryKind::Dir => {
                if self.filter.enters_dir(&e.name) {
                    let c = child(dir, &e.name);
                    self.stack.push(c);
                    assert(self@.stack == old(self)@.stack.push(path_of(dir@).push(e.name@)));
                }
            },
            EntryKind::File => {
                if self.filter.accepts_file(&e.name) {
                    let c = child(dir, &e.name);
                    self.files.push(c);
                    assert(self@.files == old(self)@.files.push(path_of(dir@).push(e.name@)));
                }
            },
            EntryKind::Other => {},
        }
    }

    /// Takes the entries of the directory `dir`, in the order of their names.
    pub fn listed(&mut self, dir: &Vec<Name>, entries: &Vec<DirEntry>)
        ensures
            final(self)@ == old(self)@.after_listing(path_of(dir@), entries_of(entries@)),
    {
        let ghost model = entries_of(entries@);
        let mut keys: Vec<Vec<u64>> = Vec::new();
        for i in 0..entries.len()
            invariant
                model == entries_of(entries@),
                keys_of(keys@) == entry_keys(model).take(i as int),
        {
            let mut key: Vec<u64> = Vec::new();
            match &entries[i].name {
                Name::Text(s) => push_name_key(&mut key, s.as_str().as_bytes()),
                Name::Raw { bytes, .. } => push_name_key(&mut key, bytes.as_slice()),
            }
            proof {
                assert(model[i as int].name == entries@[i as int].name@);
                assert(key@ == name_key(model[i as int].name.bytes));
            }
            let ghost before = keys@;
            keys.push(key);
            proof {
                assert(keys_of(keys@) == keys_of(before).push(key@));
                assert(entry_keys(model).take(i + 1) == entry_keys(model).take(i as int).push(
                    entry_keys(model)[i as int],
                ));
            }
        }
        assert(keys_of(keys@) == entry_keys(model));
        let order = stable_order_of(&keys);
        let ghost sorted = by_name(model);
        let ghost start = self@;
        for i in 0..order.len()
            invariant
                model == entries_of(entries@),
                is_stable_order(entry_keys(model), order@),
                order@ == stable_order(entry_keys(model)),
                sorted == by_name(model),
                self@ == start.with_entries(path_of(dir@), sorted.take(i as int)),
        {
            proof {
                assert(sorted.take(i + 1).drop_last() == sorted.take(i as int));
                assert(sorted.take(i + 1).last() == model[order@[i as int] as int]);
            }
            self.entry(dir, &entries[order[i]]);
        }
        assert(sorted.take(sorted.len() as int) == sorted);
    }

    /// The files that were found, in the order of their paths.
    pub fn finish(self) -> (r: Vec<Vec<Name>>)
        ensures
            paths_of(r@) == by_path(self@.files),
            is_stable_order(path_keys(self@.files), stable_order(path_keys(self@.files))),
    {
        let ghost model = paths_of(self.files@);
        let mut keys: Vec<Vec<u64>> = Vec::new();
        for i in 0..self.files.len()
            invariant
                model == paths_of(self.files@),
                keys_of(keys@) == path_keys(model).take(i as int),
        {
            let key = path_key_of(&self.files[i]);
            let ghost before = keys@;
            keys.push(key);
            proof {
                assert(keys_of(keys@) == keys_of(before).push(key@));
                assert(path_keys(model).take(i + 1) == path_keys(model).take(i as int).push(
                    path_keys(model)[i as int],
                ));
            }
        }
        assert(keys_of(keys@) == path_keys(model));
        let order = stable_order_of(&keys);
        let ghost sorted = by_path(model);
        let mut r: Vec<Vec<Name>> = Vec::new();
        for i in 0..order.len()
            invariant
                model == paths_of(self.files@),
                is_stable_order(path_keys(model), order@),
                order@ == stable_order(path_keys(model)),
                sorted == by_path(model),
                paths_of(r@) == sorted.take(i as int),
        {
            let p = copy_path(&self.files[order[i]]);
            let ghost before = r@;
            r.push(p);
            proof {
                assert(paths_of(r@) == paths_of(before).push(path_of(p@)));
                assert(sorted.take(i + 1) == sorted.take(i as int).push(sorted[i as int]));
                assert(sorted[i as int] == model[order@[i as int] as int]);
            }
        }
        assert(sorted.take(sorted.len() as int) == sorted);
        r
    }
}

fn copy_path(path: &Vec<Name>) -> (r: Vec<Name>)
    ensures
        path_of(r@) == path_of(path@),
{
    let mut r: Vec<Name> = Vec::new();
    for i in 0..path.len()
        invariant
            path_of(r@) == path_of(path@).take(i as int),
    {
        let ghost before = r@;
        r.push(path[i].copy());
        assert(path_of(r@) == path_of(before).push(path@[i as int]@));
        assert(path_of(path@).take(i + 1) == path_of(path@).take(i as int).push(path@[i as int]@));
    }
    assert(path_of(path@).take(path@.len() as int) == path_of(path@));
    r
}

// ── what a walk finds ───────────────────────────────────────────────────────

/// What a file system would say: the entries of each directory, or nothing where
/// it cannot be listed.
pub type Listing = spec_fn(Seq<NameModel>) -> Option<Seq<EntryModel>>;

/// Whether a directory has an entry of this name and kind.
pub open spec fn has_entry(entries: Seq<EntryModel>, name: NameModel, kind: EntryKind) -> bool {
    exists|i: int|
        0 <= i < entries.len() && (#[trigger] entries[i]).name == name && entries[i].kind == kind
}

/// Whether the names in `rest` lead from the directory `dir` to a file that the
/// filter keeps, through directories that it enters.
pub open spec fn leads(
    fs: Listing,
    f: FilterModel,
    dir: Seq<NameModel>,
    rest: Seq<NameModel>,
) -> bool
    decreases rest.len(),
{
    &&& rest.len() > 0
    &&& fs(dir) is Some
    &&& if rest.len() == 1 {
        has_entry(fs(dir)->0, rest[0], EntryKind::File) && f.accepts(rest[0])
    } else {
        has_entry(fs(dir)->0, rest[0], EntryKind::Dir) && f.enters(rest[0]) && leads(
            fs,
            f,
            dir.push(rest[0]),
            rest.skip(1),
        )
    }
}

/// Whether a file that the filter keeps lies at `path`, below the directory
/// `dir`.
pub open spec fn lies_below(
    fs: Listing,
    f: FilterModel,
    dir: Seq<NameModel>,
    path: Seq<NameModel>,
) -> bool {
    &&& dir.len() < path.len()
    &&& path.take(dir.len() as int) == dir
    &&& leads(fs, f, dir, path.skip(dir.len() as int))
}

/// Whether a path was found, or lies below a directory that is still to be
/// listed.
pub open spec fn in_sight(fs: Listing, s: DiscoveryState, path: Seq<NameModel>) -> bool {
    s.files.contains(path) || exists|k: int|
        0 <= k < s.stack.len() && lies_below(fs, s.filter, #[trigger] s.stack[k], path)
}

/// Whether a walk is on the way to exactly the files that the filter keeps.
pub open spec fn on_course(fs: Listing, s: DiscoveryState) -> bool {
    forall|path: Seq<NameModel>|
        #[trigger] in_sight(fs, s, path) == leads(fs, s.filter, Seq::empty(), path)
}

/// A walk from a directory starts on course.
pub proof fn law_a_walk_starts_on_course(fs: Listing, f: FilterModel)
    ensures
        on_course(
            fs,
            DiscoveryState { filter: f, stack: seq![Seq::empty()], files: Seq::empty() },
        ),
{
    let root = Seq::<NameModel>::empty();
    let s = DiscoveryState { filter: f, stack: seq![root], files: Seq::empty() };
    assert forall|path: Seq<NameModel>| #[trigger] in_sight(fs, s, path) == leads(
        fs,
        f,
        root,
        path,
    ) by {
        assert(path.skip(0) == path);
        assert(path.take(0) == root);
        assert(s.stack[0] == root);
        if leads(fs, f, root, path) {
            assert(lies_below(fs, f, s.stack[0], path));
        }
    }
}

/// A directory that cannot be listed is passed over without losing the course.
pub proof fn law_an_unreadable_directory_is_passed_over(fs: Listing, s: DiscoveryState)
    requires
        s.stack.len() > 0,
        on_course(fs, s),
        fs(s.stack.last()) is None,
    ensures
        on_course(fs, s.popped()),
{
    let t = s.popped();
    assert forall|path: Seq<NameModel>| #[trigger] in_sight(fs, t, path) == leads(
        fs,
        t.filter,
        Seq::empty(),
        path,
    ) by {
        assert(in_sight(fs, s, path) == leads(fs, s.filter, Seq::empty(), path));
        if in_sight(fs, s, path) && !s.files.contains(path) {
            let k = choose|k: int|
                0 <= k < s.stack.len() && lies_below(fs, s.filter, #[trigger] s.stack[k], path);
            assert(k < s.stack.len() - 1);
            assert(t.stack[k] == s.stack[k]);
        }
        if in_sight(fs, t, path) && !t.files.contains(path) {
            let k = choose|k: int|
                0 <= k < t.stack.len() && lies_below(fs, t.filter, #[trigger] t.stack[k], path);
            assert(s.stack[k] == t.stack[k]);
        }
    }
}

proof fn lemma_entries_membership(
    s: DiscoveryState,
    dir: Seq<NameModel>,
    entries: Seq<EntryModel>,
    p: Seq<NameModel>,
)
    ensures
        s.with_entries(dir, entries).filter == s.filter,
        s.with_entries(dir, entries).files.contains(p) <==> s.files.contains(p) || (p.len()
            == dir.len() + 1 && p.drop_last() == dir && has_entry(entries, p.last(), EntryKind::File)
            && s.filter.accepts(p.last())),
        s.with_entries(dir, entries).stack.contains(p) <==> s.stack.contains(p) || (p.len()
            == dir.len() + 1 && p.drop_last() == dir && has_entry(entries, p.last(), EntryKind::Dir)
            && s.filter.enters(p.last())),
    decreases entries.len(),
{
    if entries.len() > 0 {
        let init = entries.drop_last();
        let e = entries.last();
        let t = s.with_entries(dir, init);
        lemma_entries_membership(s, dir, init, p);
        assert forall|name: NameModel, kind: EntryKind|
            #[trigger] has_entry(entries, name, kind) == (has_entry(init, name, kind) || (e.name
                == name && e.kind == kind)) by {
            if has_entry(init, name, kind) {
                let i = choose|i: int|
                    0 <= i < init.len() && (#[trigger] init[i]).name == name && init[i].kind == kind;
                assert(entries[i] == init[i]);
            }
            if e.name == name && e.kind == kind {
                assert(entries[entries.len() - 1] == e);
            }
            if has_entry(entries, name, kind) {
                let i = choose|i: int|
                    0 <= i < entries.len() && (#[trigger] entries[i]).name == name
                        && entries[i].kind == kind;
                if i < init.len() {
                    assert(init[i] == entries[i]);
                }
            }
        }
        let c = dir.push(e.name);
        lemma_push_contains(t.files, c, p);
        lemma_push_contains(t.stack, c, p);
        assert(p == c <==> p.len() == dir.len() + 1 && p.drop_last() == dir && p.last() == e.name) by {
            if p == c {
                assert(c.drop_last() == dir);
            }
            if p.len() == dir.len() + 1 && p.drop_last() == dir && p.last() == e.name {
                assert(p == p.drop_last().push(p.last()));
            }
        }
    }
}

proof fn lemma_push_contains(s: Seq<Seq<NameModel>>, c: Seq<NameModel>, p: Seq<NameModel>)
    ensures
        s.push(c).contains(p) == (s.contains(p) || p == c),
{
    let t = s.push(c);
    if s.contains(p) {
        let i = choose|i: int| 0 <= i < s.len() && s[i] == p;
        assert(t[i] == p);
    }
    if p == c {
        assert(t[s.len() as int] == p);
    }
    if t.contains(p) && p != c {
        let i = choose|i: int| 0 <= i < t.len() && t[i] == p;
        assert(s[i] == p);
    }
}

proof fn lemma_by_name_has_entry(entries: Seq<EntryModel>, name: NameModel, kind: EntryKind)
    requires
        entries.len() <= usize::MAX,
    ensures
        has_entry(by_name(entries), name, kind) == has_entry(entries, name, kind),
{
    let keys = entry_keys(entries);
    lemma_stable_order_exists(keys);
    let p = stable_order(keys);
    let sorted = by_name(entries);
    if has_entry(sorted, name, kind) {
        let i = choose|i: int|
            0 <= i < sorted.len() && (#[trigger] sorted[i]).name == name && sorted[i].kind == kind;
        assert(entries[p[i] as int] == sorted[i]);
    }
    if has_entry(entries, name, kind) {
        let i = choose|i: int|
            0 <= i < entries.len() && (#[trigger] entries[i]).name == name && entries[i].kind
                == kind;
        assert(p.contains(i as usize));
        let k = choose|k: int| 0 <= k < p.len() && p[k] == i as usize;
        assert(sorted[k] == entries[i]);
    }
}

/// Listing a directory keeps a walk on course.
pub proof fn law_a_listing_keeps_the_course(
    fs: Listing,
    s: DiscoveryState,
    entries: Seq<EntryModel>,
)
    requires
        s.stack.len() > 0,
        on_course(fs, s),
        fs(s.stack.last()) == Some(entries),
        entries.len() <= usize::MAX,
    ensures
        on_course(fs, s.popped().after_listing(s.stack.last(), entries)),
{
    let d = s.stack.last();
    let t = s.popped();
    let sorted = by_name(entries);
    let u = t.after_listing(d, entries);
    lemma_entries_membership(t, d, sorted, Seq::empty());
    assert forall|path: Seq<NameModel>| #[trigger] in_sight(fs, u, path) == leads(
        fs,
        u.filter,
        Seq::empty(),
        path,
    ) by {
        assert(in_sight(fs, s, path) == leads(fs, s.filter, Seq::empty(), path));
        lemma_entries_membership(t, d, sorted, path);
        if path.len() > 0 {
            lemma_by_name_has_entry(entries, path.last(), EntryKind::File);
        }
        let n = d.len() as int;
        if in_sight(fs, s, path) && !s.files.contains(path) {
            let k = choose|k: int|
                0 <= k < s.stack.len() && lies_below(fs, s.filter, #[trigger] s.stack[k], path);
            if k < s.stack.len() - 1 {
                assert(t.stack[k] == s.stack[k]);
                lemma_entries_membership(t, d, sorted, s.stack[k]);
                assert(t.stack.contains(s.stack[k]));
                let j = choose|j: int| 0 <= j < u.stack.len() && u.stack[j] == s.stack[k];
                assert(lies_below(fs, u.filter, u.stack[j], path));
            } else {
                let rest = path.skip(n);
                if rest.len() == 1 {
                    assert(path.drop_last() == d);
                    assert(path.last() == rest[0]);
                } else {
                    let c = d.push(rest[0]);
                    lemma_by_name_has_entry(entries, rest[0], EntryKind::Dir);
                    assert(c.drop_last() == d);
                    lemma_entries_membership(t, d, sorted, c);
                    let j = choose|j: int| 0 <= j < u.stack.len() && u.stack[j] == c;
                    assert(path.take(n + 1) == c);
                    assert(path.skip(n + 1) == rest.skip(1));
                    assert(lies_below(fs, u.filter, u.stack[j], path));
                }
            }
        }
        if in_sight(fs, u, path) {
            if u.files.contains(path) {
                if !t.files.contains(path) {
                    let rest = path.skip(n);
                    assert(rest.len() == 1 && rest[0] == path.last());
                    assert(path.take(n) == path.drop_last());
                    assert(lies_below(fs, s.filter, s.stack[s.stack.len() - 1], path));
                }
            } else {
                let k = choose|k: int|
                    0 <= k < u.stack.len() && lies_below(fs, u.filter, #[trigger] u.stack[k], path);
                let c = u.stack[k];
                lemma_entries_membership(t, d, sorted, c);
                assert(u.stack.contains(c));
                if t.stack.contains(c) {
                    let j = choose|j: int| 0 <= j < t.stack.len() && t.stack[j] == c;
                    assert(s.stack[j] == c);
                } else {
                    lemma_by_name_has_entry(entries, c.last(), EntryKind::Dir);
                    let rest = path.skip(n);
                    assert(path.take(n) == d) by {
                        assert(path.take(n) == path.take(n + 1).drop_last());
                    }
                    assert(rest[0] == c.last()) by {
                        assert(path.take(n + 1)[n] == c[n]);
                    }
                    assert(d.push(rest[0]) == c) by {
                        assert(c == c.drop_last().push(c.last()));
                    }
                    assert(rest.skip(1) == path.skip(n + 1));
                    assert(lies_below(fs, s.filter, s.stack[s.stack.len() - 1], path));
                }
            }
        }
    }
}

/// A walk that has listed everything has found every file that the filter keeps,
/// and no other; and it hands them out in the order of their paths.
pub proof fn law_a_finished_walk_has_found_every_file(
    fs: Listing,
    s: DiscoveryState,
    path: Seq<NameModel>,
)
    requires
        on_course(fs, s),
        s.stack.len() == 0,
        s.files.len() <= usize::MAX,
    ensures
        by_path(s.files).contains(path) == leads(fs, s.filter, Seq::empty(), path),
        forall|i: int, j: int|
            0 <= i < j < by_path(s.files).len() ==> key_le(
                path_key(#[trigger] by_path(s.files)[i]),
                path_key(#[trigger] by_path(s.files)[j]),
            ),
{
    assert(in_sight(fs, s, path) == leads(fs, s.filter, Seq::empty(), path));
    let keys = path_keys(s.files);
    lemma_stable_order_exists(keys);
    let p = stable_order(keys);
    let sorted = by_path(s.files);
    if sorted.contains(path) {
        let i = choose|i: int| 0 <= i < sorted.len() && sorted[i] == path;
        assert(s.files[p[i] as int] == path);
    }
    if s.files.contains(path) {
        let i = choose|i: int| 0 <= i < s.files.len() && s.files[i] == path;
        assert(p.contains(i as usize));
        let k = choose|k: int| 0 <= k < p.len() && p[k] == i as usize;
        assert(sorted[k] == path);
    }
    assert forall|i: int, j: int| 0 <= i < j < sorted.len() implies key_le(
        path_key(#[trigger] sorted[i]),
        path_key(#[trigger] sorted[j]),
    ) by {
        assert(crate::order::before(keys, p[i] as int, p[j] as int));
        assert(keys[p[i] as int] == path_key(sorted[i]));
        assert(keys[p[j] as int] == path_key(sorted[j]));
    }
}

} // verus!
