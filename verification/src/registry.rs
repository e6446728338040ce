//! The persisted registry: the cache document mapping file names to
//! their content fingerprint and registered tests, together with the
//! global configuration (binary directory, per-extension build
//! commands), and a store with whole-document read and rewrite
//! semantics. The caller loads the document from disk and writes it
//! back; every operation here is total on the in-memory document.
use vstd::prelude::*;

use crate::text::str_eq;

verus! {

/// A registered test: either a literal input / expected-output pair
/// stored inline, or a pointer to one or two external test-definition
/// files. When `expected_output` of a `RefTest` is absent, the input
/// file itself carries alternating input and output blocks.
#[derive(Debug, Clone, PartialEq, Eq)]
pub enum Test {
    StringTest { input: String, expected_output: String },
    RefTest { input: String, expected_output: Option<String> },
}

/// The mathematical shape of a `Test`.
pub enum TestModel {
    StringTest { input: Seq<char>, expected_output: Seq<char> },
    RefTest { input: Seq<char>, expected_output: Option<Seq<char>> },
}

impl View for Test {
    type V = TestModel;

    open spec fn view(&self) -> TestModel {
        match self {
            Test::StringTest { input, expected_output } => TestModel::StringTest {
                input: input@,
                expected_output: expected_output@,
            },
            Test::RefTest { input, expected_output } => TestModel::RefTest {
                input: input@,
                expected_output: match expected_output {
                    Some(p) => Some(p@),
                    None => None,
                },
            },
        }
    }
}

impl Test {
    /// A rendering of the test for display by callers.
    pub fn describe(&self) -> (r: String)
        ensures
            match self {
                Test::StringTest { input, expected_output } => r@ == "Test: ("@ + input@
                    + "), Expected: ("@ + expected_output@ + ")"@,
                Test::RefTest { input, expected_output: Some(p) } => r@ == "Test from file: ("@
                    + input@ + "), Expected from file: ("@ + p@ + ")"@,
                Test::RefTest { input, expected_output: None } => r@ == "Test from file: ("@
                    + input@ + "), Expected from file: (none)"@,
            },
    {
        match self {
            Test::StringTest { input, expected_output } => String::from_str("Test: (").concat(
                input.as_str(),
            ).concat("), Expected: (").concat(expected_output.as_str()).concat(")"),
            Test::RefTest { input, expected_output: Some(p) } => String::from_str(
                "Test from file: (",
            ).concat(input.as_str()).concat("), Expected from file: (").concat(p.as_str()).concat(
                ")",
            ),
            Test::RefTest { input, expected_output: None } => String::from_str(
                "Test from file: (",
            ).concat(input.as_str()).concat("), Expected from file: (none)"),
        }
    }

    /// A deep copy, equal to this test.
    pub fn duplicate(&self) -> (r: Test)
        ensures
            r@ == self@,
    {
        match self {
            Test::StringTest { input, expected_output } => Test::StringTest {
                input: input.clone(),
                expected_output: expected_output.clone(),
            },
            Test::RefTest { input, expected_output } => Test::RefTest {
                input: input.clone(),
                expected_output: match expected_output {
                    Some(p) => Some(p.clone()),
                    None => None,
                },
            },
        }
    }
}

/// One file's cache entry: the fingerprint its binary was built from
/// and its registered tests, in insertion order. The fingerprint may
/// hold the sentinel that forces the next rebuild decision.
#[derive(Debug, Clone, PartialEq, Eq)]
pub struct FileCache {
    pub source_hash: String,
    pub tests: Vec<Test>,
}

pub struct FileCacheModel {
    pub source_hash: Seq<char>,
    pub tests: Seq<TestModel>,
}

impl View for FileCache {
    type V = FileCacheModel;

    open spec fn view(&self) -> FileCacheModel {
        FileCacheModel {
            source_hash: self.source_hash@,
            tests: self.tests@.map_values(|t: Test| t@),
        }
    }
}

impl FileCache {
    /// A deep copy, equal to this entry.
    pub fn duplicate(&self) -> (r: FileCache)
        ensures
            r@ == self@,
    {
        let mut tests: Vec<Test> = Vec::new();
        let mut i: usize = 0;
        while i < self.tests.len()
            invariant
                i <= self.tests.len(),
                tests@.map_values(|t: Test| t@) =~= self.tests@.map_values(|t: Test| t@).take(
                    i as int,
                ),
            decreases self.tests.len() - i,
        {
            let t = self.tests[i].duplicate();
            proof {
                let m = self.tests@.map_values(|t: Test| t@);
                assert(tests@.push(t).map_values(|t: Test| t@) =~= tests@.map_values(|t: Test| t@)
                    + seq![t@]);
                assert(m.take(i as int).push(m[i as int]) =~= m.take(i as int + 1));
            }
            tests.push(t);
            i = i + 1;
        }
        proof {
            let m = self.tests@.map_values(|t: Test| t@);
            assert(m.take(self.tests@.len() as int) =~= m);
        }
        let r = FileCache { source_hash: self.source_hash.clone(), tests };
        proof {
            assert(r@.tests =~= self@.tests);
        }
        r
    }
}

// ---------------------------------------------------------------------------
// association lists
// ---------------------------------------------------------------------------
/// The value under `key`, going by the first matching entry.
pub open spec fn assoc_get<V>(entries: Seq<(Seq<char>, V)>, key: Seq<char>) -> Option<V>
    decreases entries.len(),
{
    if entries.len() == 0 {
        None
    } else if entries[0].0 == key {
        Some(entries[0].1)
    } else {
        assoc_get(entries.skip(1), key)
    }
}

/// The entries with `key` bound to `value`: the first entry under
/// `key` replaced in place, or a new entry appended.
pub open spec fn assoc_put<V>(entries: Seq<(Seq<char>, V)>, key: Seq<char>, value: V) -> Seq<
    (Seq<char>, V),
>
    decreases entries.len(),
{
    if entries.len() == 0 {
        seq![(key, value)]
    } else if entries[0].0 == key {
        seq![(key, value)] + entries.skip(1)
    } else {
        seq![entries[0]] + assoc_put(entries.skip(1), key, value)
    }
}

/// No two entries share a key.
pub open spec fn unique_keys<V>(entries: Seq<(Seq<char>, V)>) -> bool {
    forall|i: int, j: int| 0 <= i < j < entries.len() ==> entries[i].0 != entries[j].0
}

/// Law: an entry just written is what a lookup of its key returns.
pub proof fn lemma_assoc_put_get<V>(entries: Seq<(Seq<char>, V)>, key: Seq<char>, value: V)
    ensures
        assoc_get(assoc_put(entries, key, value), key) == Some(value),
    decreases entries.len(),
{
    if entries.len() == 0 {
        let w = assoc_put(entries, key, value);
        assert(w[0] == (key, value));
    } else if entries[0].0 == key {
        let w = assoc_put(entries, key, value);
        assert(w[0] == (key, value));
    } else {
        lemma_assoc_put_get(entries.skip(1), key, value);
        let w = assoc_put(entries, key, value);
        assert(w[0] == entries[0]);
        assert(w.skip(1) =~= assoc_put(entries.skip(1), key, value));
    }
}

/// Law: writing one entry leaves every other key's entry unchanged.
pub proof fn lemma_assoc_put_frame<V>(
    entries: Seq<(Seq<char>, V)>,
    key: Seq<char>,
    value: V,
    other: Seq<char>,
)
    requires
        other != key,
    ensures
        assoc_get(assoc_put(entries, key, value), other) == assoc_get(entries, other),
    decreases entries.len(),
{
    if entries.len() == 0 {
        let w = assoc_put(entries, key, value);
        assert(w[0] == (key, value));
        assert(w.skip(1) =~= Seq::<(Seq<char>, V)>::empty());
        assert(assoc_get(w, other) == assoc_get(w.skip(1), other));
        assert(assoc_get(w.skip(1), other) is None);
    } else if entries[0].0 == key {
        let w = assoc_put(entries, key, value);
        assert(w[0] == (key, value));
        assert(w.skip(1) =~= entries.skip(1));
        assert(assoc_get(w, other) == assoc_get(entries.skip(1), other));
        assert(assoc_get(entries, other) == assoc_get(entries.skip(1), other));
    } else {
        lemma_assoc_put_frame(entries.skip(1), key, value, other);
        let w = assoc_put(entries, key, value);
        assert(w[0] == entries[0]);
        assert(w.skip(1) =~= assoc_put(entries.skip(1), key, value));
        if entries[0].0 == other {
            assert(assoc_get(w, other) == Some(w[0].1));
            assert(assoc_get(entries, other) == Some(entries[0].1));
        } else {
            assert(assoc_get(w, other) == assoc_get(w.skip(1), other));
            assert(assoc_get(entries, other) == assoc_get(entries.skip(1), other));
        }
    }
}

/// Law: registering an entry keeps the document's keys unique.
pub proof fn lemma_assoc_put_unique<V>(entries: Seq<(Seq<char>, V)>, key: Seq<char>, value: V)
    requires
        unique_keys(entries),
    ensures
        unique_keys(assoc_put(entries, key, value)),
{
    let w = assoc_put(entries, key, value);
    if exists|i: int| 0 <= i < entries.len() && entries[i].0 == key {
        let i = choose|i: int| 0 <= i < entries.len() && entries[i].0 == key;
        assert forall|j: int| 0 <= j < i implies entries[j].0 != key by {
            assert(entries[j].0 != entries[i].0);
        }
        lemma_assoc_put_at(entries, key, value, i);
        assert forall|a: int, b: int| 0 <= a < b < w.len() implies w[a].0 != w[b].0 by {
            assert(forall|k: int| 0 <= k < w.len() && k != i ==> w[k].0 == entries[k].0);
            assert(w[i].0 == entries[i].0);
        }
    } else {
        assert(forall|j: int| 0 <= j < entries.len() ==> entries[j].0 != key);
        lemma_assoc_put_missing(entries, key, value);
        assert forall|a: int, b: int| 0 <= a < b < w.len() implies w[a].0 != w[b].0 by {
            assert(forall|k: int| 0 <= k < entries.len() ==> w[k].0 == entries[k].0);
            assert(w[w.len() - 1].0 == key);
        }
    }
}

/// The positional shape of a put whose key sits first at index `i`.
pub proof fn lemma_assoc_put_at<V>(
    entries: Seq<(Seq<char>, V)>,
    key: Seq<char>,
    value: V,
    i: int,
)
    requires
        0 <= i < entries.len(),
        entries[i].0 == key,
        forall|j: int| 0 <= j < i ==> entries[j].0 != key,
    ensures
        assoc_put(entries, key, value) =~= entries.take(i).push((key, value)) + entries.skip(
            i + 1,
        ),
    decreases i,
{
    if i == 0 {
        assert(assoc_put(entries, key, value) == seq![(key, value)] + entries.skip(1));
        assert(entries.take(0).push((key, value)) + entries.skip(1) =~= seq![(key, value)]
            + entries.skip(1));
    } else {
        let t = entries.skip(1);
        assert(t[i - 1].0 == key);
        assert(forall|j: int| 0 <= j < i - 1 ==> t[j] == entries[j + 1] && t[j].0 != key);
        lemma_assoc_put_at(t, key, value, i - 1);
        assert(assoc_put(entries, key, value) == seq![entries[0]] + assoc_put(t, key, value));
        assert(t.take(i - 1) =~= entries.subrange(1, i));
        assert(t.skip(i) =~= entries.skip(i + 1));
        assert(seq![entries[0]] + (t.take(i - 1).push((key, value)) + t.skip(i)) =~= entries.take(
            i,
        ).push((key, value)) + entries.skip(i + 1));
    }
}

/// The positional shape of a put whose key is absent: an append.
pub proof fn lemma_assoc_put_missing<V>(entries: Seq<(Seq<char>, V)>, key: Seq<char>, value: V)
    requires
        forall|j: int| 0 <= j < entries.len() ==> entries[j].0 != key,
    ensures
        assoc_put(entries, key, value) =~= entries.push((key, value)),
    decreases entries.len(),
{
    if entries.len() > 0 {
        let t = entries.skip(1);
        assert(forall|j: int| 0 <= j < t.len() ==> t[j] == entries[j + 1] && t[j].0 != key);
        lemma_assoc_put_missing(t, key, value);
        assert(assoc_put(entries, key, value) == seq![entries[0]] + assoc_put(t, key, value));
        assert(seq![entries[0]] + t.push((key, value)) =~= entries.push((key, value)));
    }
}

// ---------------------------------------------------------------------------
// the document
// ---------------------------------------------------------------------------
/// The whole cache document: the binary output directory, the cache
/// entries keyed by file name, and the per-extension build command
/// templates. File-name keys are base names, not full paths, so two
/// files of one name in different directories share an entry: an
/// accepted limitation.
#[derive(Debug, Clone, PartialEq, Eq)]
pub struct Files {
    pub binary_dir_path: String,
    pub files: Vec<(String, FileCache)>,
    pub languages_config: Vec<(String, String)>,
}

pub struct FilesModel {
    pub binary_dir_path: Seq<char>,
    pub files: Seq<(Seq<char>, FileCacheModel)>,
    pub languages_config: Seq<(Seq<char>, Seq<char>)>,
}

impl View for Files {
    type V = FilesModel;

    open spec fn view(&self) -> FilesModel {
        FilesModel {
            binary_dir_path: self.binary_dir_path@,
            files: self.files@.map_values(|p: (String, FileCache)| (p.0@, p.1@)),
            languages_config: self.languages_config@.map_values(
                |p: (String, String)| (p.0@, p.1@),
            ),
        }
    }
}

impl Files {
    /// The document invariant: entry keys and extension keys are
    /// unique.
    pub open spec fn wf(self) -> bool {
        unique_keys(self@.files) && unique_keys(self@.languages_config)
    }

    /// The cache entry registered under `filename`, if any.
    pub fn get_entry(&self, filename: &str) -> (r: Option<&FileCache>)
        ensures
            match r {
                Some(fc) => assoc_get(self@.files, filename@) == Some(fc@),
                None => assoc_get(self@.files, filename@) is None,
            },
    {
        let ghost entries = self@.files;
        let mut i: usize = 0;
        proof {
            assert(entries.skip(0) =~= entries);
        }
        while i < self.files.len()
            invariant
                i <= self.files.len(),
                entries == self@.files,
                entries.len() == self.files@.len(),
                assoc_get(entries, filename@) == assoc_get(entries.skip(i as int), filename@),
            decreases self.files.len() - i,
        {
            proof {
                assert(entries[i as int] == (self.files@[i as int].0@, self.files@[i as int].1@));
                assert(entries.skip(i as int)[0] == entries[i as int]);
                assert(entries.skip(i as int).skip(1) =~= entries.skip(i as int + 1));
            }
            if str_eq(self.files[i].0.as_str(), filename) {
                return Some(&self.files[i].1);
            }
            i = i + 1;
        }
        proof {
            assert(entries.skip(self.files@.len() as int) =~= Seq::<
                (Seq<char>, FileCacheModel),
            >::empty());
        }
        None
    }

    /// Registers `file_cache` under `filename`, replacing any entry
    /// already there; the rest of the document is untouched.
    pub fn put_entry(&mut self, filename: &str, file_cache: FileCache)
        ensures
            final(self)@.files == assoc_put(old(self)@.files, filename@, file_cache@),
            final(self)@.binary_dir_path == old(self)@.binary_dir_path,
            final(self)@.languages_config == old(self)@.languages_config,
            old(self).wf() ==> final(self).wf(),
    {
        let ghost entries = old(self)@.files;
        let ghost fcm = file_cache@;
        let key = String::from_str(filename);
        let mut i: usize = 0;
        while i < self.files.len()
            invariant
                i <= self.files.len(),
                *self == *old(self),
                entries == old(self)@.files,
                entries.len() == self.files@.len(),
                key@ == filename@,
                fcm == file_cache@,
                forall|j: int| 0 <= j < i ==> entries[j].0 != filename@,
            decreases self.files.len() - i,
        {
            proof {
                assert(entries[i as int] == (self.files@[i as int].0@, self.files@[i as int].1@));
            }
            if str_eq(self.files[i].0.as_str(), filename) {
                let ghost vfiles = self.files@;
                self.files.remove(i);
                self.files.insert(i, (key, file_cache));
                proof {
                    lemma_assoc_put_at(entries, filename@, fcm, i as int);
                    assert(self.files@.len() == vfiles.len());
                    assert(self.files@[i as int].0@ == filename@);
                    assert(self.files@[i as int].1@ == fcm);
                    let m = self@.files;
                    let target = entries.take(i as int).push((filename@, fcm)) + entries.skip(
                        i as int + 1,
                    );
                    assert forall|k: int| 0 <= k < m.len() implies m[k] == target[k] by {
                        assert(m[k] == (self.files@[k].0@, self.files@[k].1@));
                        if k < i {
                            assert(self.files@[k] == vfiles[k]);
                            assert(target[k] == entries[k]);
                            assert(entries[k] == (vfiles[k].0@, vfiles[k].1@));
                        } else if k == i {
                            assert(target[k] == (filename@, fcm));
                        } else {
                            assert(self.files@[k] == vfiles[k]);
                            assert(target[k] == entries[k]);
                            assert(entries[k] == (vfiles[k].0@, vfiles[k].1@));
                        }
                    }
                    assert(m =~= target);
                    if old(self).wf() {
                        assert forall|a: int, b: int|
                            0 <= a < b < m.len() implies m[a].0 != m[b].0 by {
                            assert(forall|k: int|
                                0 <= k < m.len() && k != i ==> m[k].0 == entries[k].0);
                            assert(m[i as int].0 == entries[i as int].0);
                        }
                    }
                }
                return ;
            }
            i = i + 1;
        }
        proof {
            lemma_assoc_put_missing(entries, filename@, fcm);
        }
        self.files.push((key, file_cache));
        proof {
            let m = self@.files;
            assert(m =~= entries.push((filename@, fcm)));
            if old(self).wf() {
                assert forall|a: int, b: int| 0 <= a < b < m.len() implies m[a].0 != m[b].0 by {
                    assert(forall|k: int| 0 <= k < entries.len() ==> m[k].0 == entries[k].0);
                    assert(m[m.len() - 1].0 == filename@);
                }
            }
        }
    }

    /// The build command template for an extension, if configured.
    pub fn get_build_command(&self, extension: &str) -> (r: Option<&String>)
        ensures
            match r {
                Some(t) => assoc_get(self@.languages_config, extension@) == Some(t@),
                None => assoc_get(self@.languages_config, extension@) is None,
            },
    {
        let ghost entries = self@.languages_config;
        let mut i: usize = 0;
        proof {
            assert(entries.skip(0) =~= entries);
        }
        while i < self.languages_config.len()
            invariant
                i <= self.languages_config.len(),
                entries == self@.languages_config,
                entries.len() == self.languages_config@.len(),
                assoc_get(entries, extension@) == assoc_get(entries.skip(i as int), extension@),
            decreases self.languages_config.len() - i,
        {
            proof {
                assert(entries[i as int] == (
                    self.languages_config@[i as int].0@,
                    self.languages_config@[i as int].1@,
                ));
                assert(entries.skip(i as int)[0] == entries[i as int]);
                assert(entries.skip(i as int).skip(1) =~= entries.skip(i as int + 1));
            }
            if str_eq(self.languages_config[i].0.as_str(), extension) {
                return Some(&self.languages_config[i].1);
            }
            i = i + 1;
        }
        proof {
            assert(entries.skip(self.languages_config@.len() as int) =~= Seq::<
                (Seq<char>, Seq<char>),
            >::empty());
        }
        None
    }
}

/// The kind letter of one registered test: `S` for a literal pair,
/// `R` for a file-linked one.
pub open spec fn test_kind_letter(t: TestModel) -> char {
    match t {
        TestModel::StringTest { .. } => 'S',
        TestModel::RefTest { .. } => 'R',
    }
}

/// One kind letter per registered test, in order.
pub fn test_types_string(tests: &Vec<Test>) -> (r: String)
    ensures
        r@ == tests@.map_values(|t: Test| t@).map_values(|m: TestModel| test_kind_letter(m)),
{
    let ghost target = tests@.map_values(|t: Test| t@).map_values(
        |m: TestModel| test_kind_letter(m),
    );
    let mut letters: Vec<char> = Vec::new();
    let mut i: usize = 0;
    proof {
        assert(letters@ =~= target.take(0));
    }
    while i < tests.len()
        invariant
            i <= tests.len(),
            target == tests@.map_values(|t: Test| t@).map_values(
                |m: TestModel| test_kind_letter(m),
            ),
            target.len() == tests@.len(),
            letters@ =~= target.take(i as int),
        decreases tests.len() - i,
    {
        let c = match &tests[i] {
            Test::StringTest { .. } => 'S',
            Test::RefTest { .. } => 'R',
        };
        proof {
            assert(target[i as int] == test_kind_letter(tests@[i as int]@));
            assert(target.take(i as int).push(target[i as int]) =~= target.take(i as int + 1));
        }
        letters.push(c);
        i = i + 1;
    }
    proof {
        assert(target.take(tests@.len() as int) =~= target);
    }
    crate::text::chars_to_string(&letters)
}

/// Whether `key` occurs among `keys`.
pub open spec fn key_among(keys: Seq<Seq<char>>, key: Seq<char>) -> bool {
    exists|i: int| 0 <= i < keys.len() && keys[i] == key
}

/// The entries whose keys occur among `keys`, in their old order.
pub open spec fn filter_entries(
    entries: Seq<(Seq<char>, FileCacheModel)>,
    keys: Seq<Seq<char>>,
) -> Seq<(Seq<char>, FileCacheModel)>
    decreases entries.len(),
{
    if entries.len() == 0 {
        entries
    } else if key_among(keys, entries[0].0) {
        seq![entries[0]] + filter_entries(entries.skip(1), keys)
    } else {
        filter_entries(entries.skip(1), keys)
    }
}

/// Whether some entry carries `key`.
pub open spec fn has_key(entries: Seq<(Seq<char>, FileCacheModel)>, key: Seq<char>) -> bool {
    exists|j: int| 0 <= j < entries.len() && entries[j].0 == key
}

/// Law: dropping entries keeps the remaining keys unique, and every
/// surviving key was there before.
pub proof fn lemma_filter_entries_unique(
    entries: Seq<(Seq<char>, FileCacheModel)>,
    keys: Seq<Seq<char>>,
)
    requires
        unique_keys(entries),
    ensures
        unique_keys(filter_entries(entries, keys)),
        forall|i: int|
            0 <= i < filter_entries(entries, keys).len() ==> has_key(
                entries,
                #[trigger] filter_entries(entries, keys)[i].0,
            ),
    decreases entries.len(),
{
    if entries.len() > 0 {
        let t = entries.skip(1);
        assert(forall|j: int| 0 <= j < t.len() ==> t[j] == entries[j + 1]);
        lemma_filter_entries_unique(t, keys);
        let ft = filter_entries(t, keys);
        assert forall|i: int| 0 <= i < ft.len() implies has_key(entries, ft[i].0) by {
            let j = choose|j: int| 0 <= j < t.len() && t[j].0 == ft[i].0;
            assert(entries[j + 1].0 == ft[i].0);
        }
        if key_among(keys, entries[0].0) {
            let w = filter_entries(entries, keys);
            assert(w =~= seq![entries[0]] + ft);
            assert forall|a: int, b: int| 0 <= a < b < w.len() implies w[a].0 != w[b].0 by {
                if a == 0 {
                    let j = choose|j: int| 0 <= j < t.len() && t[j].0 == ft[b - 1].0;
                    assert(entries[j + 1].0 == w[b].0);
                    assert(entries[0].0 != entries[j + 1].0);
                } else {
                    assert(w[a] == ft[a - 1] && w[b] == ft[b - 1]);
                }
            }
        }
    }
}

/// Whether `name` occurs among the given strings.
fn name_among(names: &Vec<String>, name: &str) -> (r: bool)
    ensures
        r == key_among(crate::text::strings_views(names@), name@),
{
    let ghost keys = crate::text::strings_views(names@);
    let mut i: usize = 0;
    while i < names.len()
        invariant
            i <= names.len(),
            keys == crate::text::strings_views(names@),
            keys.len() == names@.len(),
            forall|j: int| 0 <= j < i ==> keys[j] != name@,
        decreases names.len() - i,
    {
        proof {
            assert(keys[i as int] == names@[i as int]@);
        }
        if str_eq(names[i].as_str(), name) {
            return true;
        }
        i = i + 1;
    }
    false
}

/// The `clean` operation's decision: the document with every entry
/// dropped whose file no longer exists — the caller reports, in
/// `existing`, which of the registered file names still do.
pub fn clean(config: Files, existing: &Vec<String>) -> (r: Files)
    ensures
        r@.binary_dir_path == config@.binary_dir_path,
        r@.languages_config == config@.languages_config,
        r@.files == filter_entries(config@.files, crate::text::strings_views(existing@)),
        config.wf() ==> r.wf(),
{
    proof {
        if config.wf() {
            lemma_filter_entries_unique(config@.files, crate::text::strings_views(existing@));
        }
    }
    let ghost keys = crate::text::strings_views(existing@);
    let ghost entries = config@.files;
    let mut kept: Vec<(String, FileCache)> = Vec::new();
    let mut i: usize = 0;
    let Files { binary_dir_path, files, languages_config } = config;
    proof {
        assert(entries.skip(0) =~= entries);
        assert(kept@.map_values(|p: (String, FileCache)| (p.0@, p.1@)) =~= Seq::<
            (Seq<char>, FileCacheModel),
        >::empty());
    }
    while i < files.len()
        invariant
            i <= files.len(),
            keys == crate::text::strings_views(existing@),
            entries == files@.map_values(|p: (String, FileCache)| (p.0@, p.1@)),
            entries.len() == files@.len(),
            filter_entries(entries, keys) =~= kept@.map_values(
                |p: (String, FileCache)| (p.0@, p.1@),
            ) + filter_entries(entries.skip(i as int), keys),
        decreases files.len() - i,
    {
        let ghost done = kept@.map_values(|p: (String, FileCache)| (p.0@, p.1@));
        proof {
            assert(entries.skip(i as int)[0] == entries[i as int]);
            assert(entries[i as int] == (files@[i as int].0@, files@[i as int].1@));
            assert(entries.skip(i as int).skip(1) =~= entries.skip(i as int + 1));
        }
        if name_among(existing, files[i].0.as_str()) {
            let name = files[i].0.clone();
            let entry = files[i].1.duplicate();
            proof {
                assert(kept@.push((name, entry)).map_values(|p: (String, FileCache)| (p.0@, p.1@))
                    =~= done + seq![(name@, entry@)]);
                assert((name@, entry@) == entries[i as int]);
                assert(done + seq![entries[i as int]] + filter_entries(
                    entries.skip(i as int + 1),
                    keys,
                ) =~= done + (seq![entries[i as int]] + filter_entries(
                    entries.skip(i as int + 1),
                    keys,
                )));
            }
            kept.push((name, entry));
        }
        i = i + 1;
    }
    proof {
        assert(entries.skip(files@.len() as int) =~= Seq::<(Seq<char>, FileCacheModel)>::empty());
        assert(filter_entries(
            Seq::<(Seq<char>, FileCacheModel)>::empty(),
            keys,
        ) =~= Seq::<(Seq<char>, FileCacheModel)>::empty());
    }
    let r = Files { binary_dir_path, files: kept, languages_config };
    r
}

/// The freshly initialized document: no entries, and default build
/// commands for C++ and C sources.
pub fn default_document(binary_dir_path: String) -> (r: Files)
    ensures
        r@.binary_dir_path == binary_dir_path@,
        r@.files == Seq::<(Seq<char>, FileCacheModel)>::empty(),
        r@.languages_config.len() == 2,
        r@.languages_config[0] == ("cpp"@, "g++ $(FILE) -o $(BIN_DIR)/$(FILENAME).$(EXE_EXT) --std=c++20"@),
        r@.languages_config[1] == ("c"@, "gcc $(FILE) -o $(BIN_DIR)/$(FILENAME).$(EXE_EXT)"@),
        r.wf(),
{
    let mut languages_config: Vec<(String, String)> = Vec::new();
    languages_config.push(
        (
            String::from_str("cpp"),
            String::from_str("g++ $(FILE) -o $(BIN_DIR)/$(FILENAME).$(EXE_EXT) --std=c++20"),
        ),
    );
    languages_config.push(
        (String::from_str("c"), String::from_str("gcc $(FILE) -o $(BIN_DIR)/$(FILENAME).$(EXE_EXT)")),
    );
    let r = Files { binary_dir_path, files: Vec::new(), languages_config };
    proof {
        assert(r@.files =~= Seq::<(Seq<char>, FileCacheModel)>::empty());
        assert(r@.languages_config[0].0 =~= "cpp"@);
        assert(r@.languages_config[1].0 =~= "c"@);
        reveal_strlit("cpp");
        reveal_strlit("c");
        assert(r@.languages_config[0].0 != r@.languages_config[1].0);
    }
    r
}

/// The name of the cache document in the project directory.
pub fn default_cache_file_name() -> (r: &'static str)
    ensures
        r@ == "erunner_cache.json"@,
{
    "erunner_cache.json"
}

/// The default name of the binary output directory.
pub fn default_binary_dir_name() -> (r: &'static str)
    ensures
        r@ == "binary"@,
{
    "binary"
}

// ---------------------------------------------------------------------------
// the store
// ---------------------------------------------------------------------------
/// Why a store operation failed: the backing document has never been
/// created. This is distinct from any I/O failure, which belongs to
/// the caller doing the reading and writing.
#[derive(Debug, Clone, Copy, PartialEq, Eq, Structural)]
pub enum CacheError {
    NotInitialized,
}

/// The cache store: the single backing document, or nothing before
/// initialization. Every operation is a whole-document read or a
/// whole-document rewrite; the caller persists the document around
/// calls. Nothing guards against a concurrent external writer: one
/// writer at a time is an assumption of deployment, not enforced.
pub struct CacheStore {
    document: Option<Files>,
}

impl View for CacheStore {
    type V = Option<FilesModel>;

    closed spec fn view(&self) -> Option<FilesModel> {
        match self.document {
            Some(d) => Some(d@),
            None => None,
        }
    }
}

/// A whole-document write against a possibly missing document: it
/// succeeds exactly when the document exists.
pub open spec fn spec_put_config(doc: Option<FilesModel>, d: FilesModel) -> Option<FilesModel> {
    if doc is Some {
        Some(d)
    } else {
        doc
    }
}

/// A whole-document read: the document as it stands.
pub open spec fn spec_get_config(doc: Option<FilesModel>) -> Option<FilesModel> {
    doc
}

/// Law: on an initialized store, a whole-document write followed by a
/// read returns an equal document.
pub proof fn lemma_config_roundtrip(doc: Option<FilesModel>, d: FilesModel)
    requires
        doc is Some,
    ensures
        spec_get_config(spec_put_config(doc, d)) == Some(d),
{
}

/// Law: a cache entry just registered is what a lookup of its file
/// name returns, and every other file's entry is untouched.
pub proof fn lemma_entry_roundtrip(
    files: Seq<(Seq<char>, FileCacheModel)>,
    filename: Seq<char>,
    fc: FileCacheModel,
    other: Seq<char>,
)
    ensures
        assoc_get(assoc_put(files, filename, fc), filename) == Some(fc),
        other != filename ==> assoc_get(assoc_put(files, filename, fc), other) == assoc_get(
            files,
            other,
        ),
{
    lemma_assoc_put_get(files, filename, fc);
    if other != filename {
        lemma_assoc_put_frame(files, filename, fc, other);
    }
}

impl CacheStore {
    /// A store whose backing document does not exist yet.
    pub fn new_uninitialized() -> (s: Self)
        ensures
            s@ is None,
    {
        CacheStore { document: None }
    }

    /// A store over a loaded document.
    pub fn from_document(document: Files) -> (s: Self)
        ensures
            s@ == Some(document@),
    {
        CacheStore { document: Some(document) }
    }

    /// Whether the backing document exists.
    pub fn check_initialized(&self) -> (r: bool)
        ensures
            r == (self@ is Some),
    {
        match &self.document {
            Some(_) => true,
            None => false,
        }
    }

    /// Creates the backing document, initialized or not.
    pub fn initialize(&mut self, document: Files)
        ensures
            final(self)@ == Some(document@),
    {
        self.document = Some(document);
    }

    /// The whole document; `NotInitialized` when it does not exist.
    pub fn get_config(&self) -> (r: Result<&Files, CacheError>)
        ensures
            match r {
                Ok(d) => self@ == Some(d@),
                Err(e) => self@ is None && e == CacheError::NotInitialized,
            },
    {
        match &self.document {
            Some(d) => Ok(d),
            None => Err(CacheError::NotInitialized),
        }
    }

    /// Replaces the whole document; `NotInitialized` — and no change —
    /// when it does not exist.
    pub fn put_config(&mut self, document: Files) -> (r: Result<(), CacheError>)
        ensures
            final(self)@ == spec_put_config(old(self)@, document@),
            r is Ok <==> old(self)@ is Some,
            r is Err ==> r == Err::<(), CacheError>(CacheError::NotInitialized) && final(self)@
                == old(self)@,
    {
        if self.document.is_some() {
            self.document = Some(document);
            Ok(())
        } else {
            Err(CacheError::NotInitialized)
        }
    }

    /// The entry under `filename`: `Ok(None)` when the document exists
    /// but holds no such entry.
    pub fn get_entry(&self, filename: &str) -> (r: Result<Option<&FileCache>, CacheError>)
        ensures
            match r {
                Ok(Some(fc)) => self@ is Some && assoc_get(self@->Some_0.files, filename@) == Some(
                    fc@,
                ),
                Ok(None) => self@ is Some && assoc_get(self@->Some_0.files, filename@) is None,
                Err(e) => self@ is None && e == CacheError::NotInitialized,
            },
    {
        match &self.document {
            Some(d) => Ok(d.get_entry(filename)),
            None => Err(CacheError::NotInitialized),
        }
    }

    /// Registers `file_cache` under `filename` in the document.
    pub fn put_entry(&mut self, filename: &str, file_cache: FileCache) -> (r: Result<
        (),
        CacheError,
    >)
        ensures
            r is Ok <==> old(self)@ is Some,
            r is Ok ==> final(self)@ is Some && final(self)@->Some_0.files == assoc_put(
                old(self)@->Some_0.files,
                filename@,
                file_cache@,
            ) && final(self)@->Some_0.binary_dir_path == old(self)@->Some_0.binary_dir_path
                && final(self)@->Some_0.languages_config == old(self)@->Some_0.languages_config,
            r is Err ==> r == Err::<(), CacheError>(CacheError::NotInitialized) && final(self)@
                == old(self)@,
    {
        match &mut self.document {
            Some(d) => {
                d.put_entry(filename, file_cache);
                Ok(())
            },
            None => Err(CacheError::NotInitialized),
        }
    }

    /// The document surrendered to the caller, for persisting.
    pub fn into_document(self) -> (r: Option<Files>)
        ensures
            match r {
                Some(d) => self@ == Some(d@),
                None => self@ is None,
            },
    {
        self.document
    }
}

} // verus!
