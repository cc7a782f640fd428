//! The fixture store: problems and their named tests.
//!
//! A problem is assembled from a plain in-memory picture of one numbered
//! fixture directory: a `description.md` whose first line is the title, and
//! `<name>.in` / `<name>.out` file pairs, one test each. Directories are
//! processed in ascending numeric order, starting at 1, up to the first gap.
//! Within a problem, tests are ordered by name.

use vstd::prelude::*;
use vstd::string::StrSliceExecFns;
use crate::text::{str_le, str_le_exec, str_eq, lemma_str_le_connected, lemma_str_le_trans};

verus! {

/// One fixture: a name, the bytes fed to the candidate's standard input, and
/// the bytes its standard output is expected to produce.
#[derive(Debug)]
pub struct Test {
    pub test_name: String,
    pub input: Vec<u8>,
    pub output: Vec<u8>,
}

/// The mathematical picture of a [`Test`].
pub struct TestModel {
    pub name: Seq<char>,
    pub input: Seq<u8>,
    pub output: Seq<u8>,
}

impl View for Test {
    type V = TestModel;

    open spec fn view(&self) -> TestModel {
        TestModel { name: self.test_name@, input: self.input@, output: self.output@ }
    }
}

/// A titled, described, ordered collection of tests.
#[derive(Debug)]
pub struct Problem {
    pub title: String,
    pub description: String,
    pub tests: Vec<Test>,
}

/// The mathematical picture of a [`Problem`].
pub struct ProblemModel {
    pub title: Seq<char>,
    pub description: Seq<char>,
    pub tests: Seq<TestModel>,
}

impl View for Problem {
    type V = ProblemModel;

    open spec fn view(&self) -> ProblemModel {
        ProblemModel {
            title: self.title@,
            description: self.description@,
            tests: test_models(self.tests@),
        }
    }
}

/// One file of a fixture directory, by name and raw content.
pub struct ProblemFile {
    pub name: String,
    pub content: Vec<u8>,
}

/// The mathematical picture of a [`ProblemFile`].
pub struct FileModel {
    pub name: Seq<char>,
    pub content: Seq<u8>,
}

impl View for ProblemFile {
    type V = FileModel;

    open spec fn view(&self) -> FileModel {
        FileModel { name: self.name@, content: self.content@ }
    }
}

/// One numbered fixture directory, with its regular files.
pub struct ProblemDir {
    pub number: u64,
    pub files: Vec<ProblemFile>,
}

/// The mathematical picture of a [`ProblemDir`].
pub struct DirModel {
    pub number: u64,
    pub files: Seq<FileModel>,
}

impl View for ProblemDir {
    type V = DirModel;

    open spec fn view(&self) -> DirModel {
        DirModel { number: self.number, files: file_models(self.files@) }
    }
}

/// The views of a sequence of tests.
pub open spec fn test_models(ts: Seq<Test>) -> Seq<TestModel> {
    ts.map_values(|t: Test| t@)
}

/// The views of a sequence of files.
pub open spec fn file_models(fs: Seq<ProblemFile>) -> Seq<FileModel> {
    fs.map_values(|f: ProblemFile| f@)
}

/// The views of a sequence of directories.
pub open spec fn dir_models(ds: Seq<ProblemDir>) -> Seq<DirModel> {
    ds.map_values(|d: ProblemDir| d@)
}

/// Why a fixture directory could not be turned into a problem.
#[derive(Debug, PartialEq, Eq)]
pub enum LoadError {
    /// `description.md` is missing from the numbered directory.
    MissingDescription { problem: u64 },
    /// `description.md` is not valid UTF-8.
    InvalidUtf8 { problem: u64 },
    /// `description.md` has no newline separating the title from the body.
    InvalidFormat { problem: u64 },
    /// An input file has no matching output file.
    MissingOutput { problem: u64, test_name: String },
}

/// The mathematical picture of a [`LoadError`].
pub enum LoadErrorModel {
    MissingDescription { problem: u64 },
    InvalidUtf8 { problem: u64 },
    InvalidFormat { problem: u64 },
    MissingOutput { problem: u64, test_name: Seq<char> },
}

impl View for LoadError {
    type V = LoadErrorModel;

    open spec fn view(&self) -> LoadErrorModel {
        match self {
            LoadError::MissingDescription { problem } => LoadErrorModel::MissingDescription {
                problem: *problem,
            },
            LoadError::InvalidUtf8 { problem } => LoadErrorModel::InvalidUtf8 {
                problem: *problem,
            },
            LoadError::InvalidFormat { problem } => LoadErrorModel::InvalidFormat {
                problem: *problem,
            },
            LoadError::MissingOutput { problem, test_name } => LoadErrorModel::MissingOutput {
                problem: *problem,
                test_name: test_name@,
            },
        }
    }
}

/// The least index of a file with the given name, if any.
pub open spec fn find_file_spec(files: Seq<FileModel>, name: Seq<char>) -> Option<int>
    decreases files.len(),
{
    if files.len() == 0 {
        None
    } else if files[0].name == name {
        Some(0)
    } else {
        match find_file_spec(files.skip(1), name) {
            Some(i) => Some(i + 1),
            None => None,
        }
    }
}

/// What `find_file_spec` returns, spelled out.
pub proof fn lemma_find_file_spec(files: Seq<FileModel>, name: Seq<char>)
    ensures
        match find_file_spec(files, name) {
            Some(i) => 0 <= i < files.len() && files[i].name == name && forall|j: int|
                0 <= j < i ==> files[j].name != name,
            None => forall|j: int| 0 <= j < files.len() ==> files[j].name != name,
        },
    decreases files.len(),
{
    if files.len() == 0 {
    } else if files[0].name == name {
    } else {
        lemma_find_file_spec(files.skip(1), name);
        let t = files.skip(1);
        assert(forall|j: int| 0 <= j < t.len() ==> t[j] == files[j + 1]);
        match find_file_spec(t, name) {
            Some(i) => {
                assert forall|j: int| 0 <= j < i + 1 implies files[j].name != name by {
                    if j > 0 {
                        assert(t[j - 1].name != name);
                    }
                }
            },
            None => {
                assert forall|j: int| 0 <= j < files.len() implies files[j].name != name by {
                    if j > 0 {
                        assert(t[j - 1].name != name);
                    }
                }
            },
        }
    }
}

/// The least index of a file named `name`, if any.
pub fn find_file(files: &Vec<ProblemFile>, name: &str) -> (r: Option<usize>)
    ensures
        match r {
            Some(i) => Some(i as int) == find_file_spec(file_models(files@), name@),
            None => find_file_spec(file_models(files@), name@) is None,
        },
{
    let ghost fm = file_models(files@);
    let mut k: usize = 0;
    while k < files.len()
        invariant
            fm == file_models(files@),
            k <= files@.len() == fm.len(),
            forall|j: int| 0 <= j < k ==> fm[j].name != name@,
        decreases files@.len() - k,
    {
        proof {
            assert(fm[k as int] == files@[k as int]@);
        }
        if str_eq(files[k].name.as_str(), name) {
            proof {
                lemma_find_file_spec(fm, name@);
            }
            return Some(k);
        }
        k = k + 1;
    }
    proof {
        lemma_find_file_spec(fm, name@);
    }
    None
}

/// The least index of a directory numbered `number`, if any.
pub open spec fn find_dir_spec(dirs: Seq<DirModel>, number: u64) -> Option<int>
    decreases dirs.len(),
{
    if dirs.len() == 0 {
        None
    } else if dirs[0].number == number {
        Some(0)
    } else {
        match find_dir_spec(dirs.skip(1), number) {
            Some(i) => Some(i + 1),
            None => None,
        }
    }
}

/// What `find_dir_spec` returns, spelled out.
pub proof fn lemma_find_dir_spec(dirs: Seq<DirModel>, number: u64)
    ensures
        match find_dir_spec(dirs, number) {
            Some(i) => 0 <= i < dirs.len() && dirs[i].number == number && forall|j: int|
                0 <= j < i ==> dirs[j].number != number,
            None => forall|j: int| 0 <= j < dirs.len() ==> dirs[j].number != number,
        },
    decreases dirs.len(),
{
    if dirs.len() == 0 {
    } else if dirs[0].number == number {
    } else {
        lemma_find_dir_spec(dirs.skip(1), number);
        let t = dirs.skip(1);
        assert(forall|j: int| 0 <= j < t.len() ==> t[j] == dirs[j + 1]);
        match find_dir_spec(t, number) {
            Some(i) => {
                assert forall|j: int| 0 <= j < i + 1 implies dirs[j].number != number by {
                    if j > 0 {
                        assert(t[j - 1].number != number);
                    }
                }
            },
            None => {
                assert forall|j: int| 0 <= j < dirs.len() implies dirs[j].number != number by {
                    if j > 0 {
                        assert(t[j - 1].number != number);
                    }
                }
            },
        }
    }
}

/// The least index of a directory numbered `number`, if any.
fn find_dir(dirs: &Vec<ProblemDir>, number: u64) -> (r: Option<usize>)
    ensures
        match r {
            Some(i) => Some(i as int) == find_dir_spec(dir_models(dirs@), number),
            None => find_dir_spec(dir_models(dirs@), number) is None,
        },
{
    let ghost dm = dir_models(dirs@);
    let mut k: usize = 0;
    while k < dirs.len()
        invariant
            dm == dir_models(dirs@),
            k <= dirs@.len() == dm.len(),
            forall|j: int| 0 <= j < k ==> dm[j].number != number,
        decreases dirs@.len() - k,
    {
        proof {
            assert(dm[k as int] == dirs@[k as int]@);
        }
        if dirs[k].number == number {
            proof {
                lemma_find_dir_spec(dm, number);
            }
            return Some(k);
        }
        k = k + 1;
    }
    proof {
        lemma_find_dir_spec(dm, number);
    }
    None
}

/// Tests stand in ascending name order.
pub open spec fn sorted_by_name(ts: Seq<TestModel>) -> bool {
    forall|i: int, j: int| 0 <= i < j < ts.len() ==> str_le(ts[i].name, ts[j].name)
}

/// A byte-for-byte copy of `v`.
fn copy_bytes(v: &Vec<u8>) -> (r: Vec<u8>)
    ensures
        r@ == v@,
{
    let mut r: Vec<u8> = Vec::new();
    let mut i: usize = 0;
    while i < v.len()
        invariant
            i <= v@.len(),
            r@ == v@.take(i as int),
        decreases v@.len() - i,
    {
        r.push(v[i]);
        proof {
            assert(v@.take(i + 1) =~= v@.take(i as int).push(v@[i as int]));
        }
        i = i + 1;
    }
    proof {
        assert(v@.take(v@.len() as int) =~= v@);
    }
    r
}

/// Where `name` belongs among the first `hi` tests: past every name at or
/// before it.
fn insertion_point(tests: &Vec<Test>, hi: usize, name: &str) -> (j: usize)
    requires
        hi <= tests@.len(),
    ensures
        j <= hi,
        forall|p: int| 0 <= p < j ==> str_le(tests@[p].test_name@, name@),
        j < hi ==> !str_le(tests@[j as int].test_name@, name@),
{
    let mut j: usize = 0;
    while j < hi
        invariant
            j <= hi <= tests@.len(),
            forall|p: int| 0 <= p < j ==> str_le(tests@[p].test_name@, name@),
        decreases hi - j,
    {
        if !str_le_exec(tests[j].test_name.as_str(), name) {
            return j;
        }
        j = j + 1;
    }
    j
}

/// Sort the tests by name: afterwards they stand in ascending name order and
/// are, as a multiset, the tests that were there before.
pub fn sort_tests(tests: &mut Vec<Test>)
    ensures
        sorted_by_name(test_models(final(tests)@)),
        final(tests)@.to_multiset() == old(tests)@.to_multiset(),
        test_models(final(tests)@).to_multiset() == test_models(old(tests)@).to_multiset(),
{
    let ghost orig = tests@;
    let mut i: usize = 1;
    while i < tests.len()
        invariant
            i >= 1,
            tests@.to_multiset() == orig.to_multiset(),
            test_models(tests@).to_multiset() == test_models(orig).to_multiset(),
            forall|p: int, q: int| 0 <= p < q < i && q < tests@.len() ==> str_le(
                tests@[p].test_name@,
                tests@[q].test_name@,
            ),
        decreases tests@.len() - i,
    {
        let ghost before = tests@;
        let t = tests.remove(i);
        let ghost removed = tests@;
        proof {
            broadcast use vstd::seq_lib::group_to_multiset_ensures;
            assert(removed.to_multiset() =~= before.to_multiset().remove(before[i as int]));
            assert(test_models(removed) =~= test_models(before).remove(i as int));
            assert(test_models(removed).to_multiset() =~= test_models(before).to_multiset().remove(
                test_models(before)[i as int],
            ));
        }
        let j = insertion_point(tests, i, t.test_name.as_str());
        tests.insert(j, t);
        proof {
            broadcast use vstd::seq_lib::to_multiset_insert;
            assert(tests@.to_multiset() =~= orig.to_multiset());
            assert(test_models(tests@) =~= test_models(removed).insert(j as int, t@));
            assert(test_models(before)[i as int] == t@);
            assert(test_models(tests@).to_multiset() =~= test_models(orig).to_multiset());
            // the prefix of length i + 1 is sorted
            assert forall|p: int, q: int|
                0 <= p < q < i + 1 && q < tests@.len() implies str_le(
                tests@[p].test_name@,
                tests@[q].test_name@,
            ) by {
                let jj = j as int;
                if q < jj {
                    assert(tests@[p] == removed[p] && tests@[q] == removed[q]);
                } else if p < jj && q == jj {
                    assert(tests@[p] == removed[p]);
                } else if p < jj && q > jj {
                    assert(tests@[p] == removed[p] && tests@[q] == removed[q - 1]);
                } else if p == jj {
                    // tests@[p] == t; q > jj, so tests@[q] == removed[q - 1]
                    assert(tests@[q] == removed[q - 1]);
                    assert(jj < i);
                    lemma_str_le_connected(t.test_name@, removed[jj].test_name@);
                    if q - 1 > jj {
                        lemma_str_le_trans(
                            t.test_name@,
                            removed[jj].test_name@,
                            removed[q - 1].test_name@,
                        );
                    }
                } else {
                    // jj < p < q
                    assert(tests@[p] == removed[p - 1] && tests@[q] == removed[q - 1]);
                }
            }
        }
        i = i + 1;
    }
    proof {
        assert forall|p: int, q: int|
            0 <= p < q < test_models(tests@).len() implies str_le(
            test_models(tests@)[p].name,
            test_models(tests@)[q].name,
        ) by {
            assert(test_models(tests@)[p] == tests@[p]@);
            assert(test_models(tests@)[q] == tests@[q]@);
        }
    }
}

/// Whether a file name ends in `.in`.
pub open spec fn ends_with_in(name: Seq<char>) -> bool {
    &&& name.len() >= 3
    &&& name[name.len() - 3] == '.'
    &&& name[name.len() - 2] == 'i'
    &&& name[name.len() - 1] == 'n'
}

/// The test name: the input file's name with its `.in` suffix removed.
pub open spec fn test_stem(name: Seq<char>) -> Seq<char> {
    name.take(name.len() - 3)
}

/// The output file that pairs with an input file of the given stem.
pub open spec fn out_name(stem: Seq<char>) -> Seq<char> {
    stem + ".out"@
}

/// Whether the file name ends in `.in`.
fn name_ends_with_in(name: &str) -> (r: bool)
    ensures
        r == ends_with_in(name@),
{
    let n = name.unicode_len();
    if n < 3 {
        return false;
    }
    name.get_char(n - 3) == '.' && name.get_char(n - 2) == 'i' && name.get_char(n - 1) == 'n'
}

/// The tests named by `files` (every `<stem>.in`, in file order), each paired
/// with the content of the first file named `<stem>.out` anywhere in `all`;
/// or the stem of the first input file that has no output file.
pub open spec fn collect_tests_spec(
    files: Seq<FileModel>,
    all: Seq<FileModel>,
    problem: u64,
) -> Result<Seq<TestModel>, LoadErrorModel>
    decreases files.len(),
{
    if files.len() == 0 {
        Ok(Seq::empty())
    } else {
        let f = files[0];
        if ends_with_in(f.name) {
            let stem = test_stem(f.name);
            match find_file_spec(all, out_name(stem)) {
                Some(oi) => match collect_tests_spec(files.skip(1), all, problem) {
                    Ok(rest) => Ok(
                        seq![TestModel { name: stem, input: f.content, output: all[oi].content }]
                            + rest,
                    ),
                    Err(e) => Err(e),
                },
                None => Err(LoadErrorModel::MissingOutput { problem, test_name: stem }),
            }
        } else {
            collect_tests_spec(files.skip(1), all, problem)
        }
    }
}

/// `r` with `prefix` prepended to its success value.
pub open spec fn prefixed(
    prefix: Seq<TestModel>,
    r: Result<Seq<TestModel>, LoadErrorModel>,
) -> Result<Seq<TestModel>, LoadErrorModel> {
    match r {
        Ok(ts) => Ok(prefix + ts),
        Err(e) => Err(e),
    }
}

/// The problem a fixture directory describes, before its tests are put in
/// name order: the first line of `description.md` is the title, the rest the
/// description, and the tests come from the `.in`/`.out` file pairs in file
/// order. Errors, in the order they are checked: no `description.md`, its
/// content not UTF-8, no newline in it, an input file without an output file.
pub open spec fn build_problem_spec(number: u64, files: Seq<FileModel>) -> Result<
    ProblemModel,
    LoadErrorModel,
> {
    match find_file_spec(files, "description.md"@) {
        None => Err(LoadErrorModel::MissingDescription { problem: number }),
        Some(di) => {
            if !vstd::utf8::valid_utf8(files[di].content) {
                Err(LoadErrorModel::InvalidUtf8 { problem: number })
            } else {
                let text = vstd::utf8::decode_utf8(files[di].content);
                match crate::text::find_char_spec(text, '\n') {
                    None => Err(LoadErrorModel::InvalidFormat { problem: number }),
                    Some(nl) => match collect_tests_spec(files, files, number) {
                        Err(e) => Err(e),
                        Ok(ts) => Ok(
                            ProblemModel {
                                title: text.take(nl),
                                description: text.skip(nl + 1),
                                tests: ts,
                            },
                        ),
                    },
                }
            }
        },
    }
}

/// Relies on `String::from_utf8`: decodes the bytes as UTF-8, rejecting
/// invalid sequences; the characters are exactly the UTF-8 decoding of the
/// bytes.
#[verifier::external_body]
fn bytes_to_utf8(bytes: &Vec<u8>) -> (r: Option<String>)
    ensures
        r is Some <==> vstd::utf8::valid_utf8(bytes@),
        r matches Some(s) ==> s@ == vstd::utf8::decode_utf8(bytes@),
{
    match String::from_utf8(bytes.clone()) {
        Ok(s) => Some(s),
        Err(_) => None,
    }
}

/// Assemble one problem from the files of its numbered fixture directory:
/// exactly what `build_problem_spec` says, except that the tests are returned
/// in ascending name order (a permutation of the collected tests).
pub fn build_problem(number: u64, files: &Vec<ProblemFile>) -> (r: Result<Problem, LoadError>)
    ensures
        match r {
            Ok(p) => {
                &&& build_problem_spec(number, file_models(files@)) matches Ok(pm)
                &&& p.title@ == pm.title
                &&& p.description@ == pm.description
                &&& sorted_by_name(test_models(p.tests@))
                &&& test_models(p.tests@).to_multiset() == pm.tests.to_multiset()
            },
            Err(e) => build_problem_spec(number, file_models(files@)) == Err::<ProblemModel, LoadErrorModel>(e@),
        },
{
    let ghost fm = file_models(files@);
    let di = match find_file(files, "description.md") {
        Some(d) => d,
        None => {
            return Err(LoadError::MissingDescription { problem: number });
        },
    };
    proof {
        lemma_find_file_spec(fm, "description.md"@);
        assert(fm[di as int] == files@[di as int]@);
    }
    let text = match bytes_to_utf8(&files[di].content) {
        Some(t) => t,
        None => {
            return Err(LoadError::InvalidUtf8 { problem: number });
        },
    };
    let n = text.as_str().unicode_len();
    let nl = match crate::text::find_char(text.as_str(), '\n') {
        Some(i) => i,
        None => {
            return Err(LoadError::InvalidFormat { problem: number });
        },
    };
    proof {
        crate::text::lemma_find_char_spec(text@, '\n');
    }
    let title = text.as_str().substring_char(0, nl).to_owned();
    let description = text.as_str().substring_char(nl + 1, n).to_owned();
    let mut tests: Vec<Test> = Vec::new();
    let mut k: usize = 0;
    proof {
        assert(fm.skip(0) =~= fm);
        assert(test_models(tests@) =~= Seq::<TestModel>::empty());
    }
    while k < files.len()
        invariant
            fm == file_models(files@),
            k <= files@.len() == fm.len(),
            di < fm.len(),
            find_file_spec(fm, "description.md"@) == Some(di as int),
            vstd::utf8::valid_utf8(fm[di as int].content),
            text@ == vstd::utf8::decode_utf8(fm[di as int].content),
            crate::text::find_char_spec(text@, '\n') == Some(nl as int),
            collect_tests_spec(fm, fm, number) == prefixed(
                test_models(tests@),
                collect_tests_spec(fm.skip(k as int), fm, number),
            ),
        decreases files@.len() - k,
    {
        proof {
            assert(fm[k as int] == files@[k as int]@);
            assert(fm.skip(k as int)[0] == fm[k as int]);
            assert(fm.skip(k as int).skip(1) =~= fm.skip(k as int + 1));
        }
        if name_ends_with_in(files[k].name.as_str()) {
            let nn = files[k].name.as_str().unicode_len();
            let stem = files[k].name.as_str().substring_char(0, nn - 3);
            let mut pair_name = stem.to_owned();
            pair_name.append(".out");
            proof {
                assert(stem@ =~= test_stem(fm[k as int].name));
                assert(pair_name@ =~= out_name(test_stem(fm[k as int].name)));
            }
            match find_file(files, pair_name.as_str()) {
                Some(oi) => {
                    proof {
                        lemma_find_file_spec(fm, pair_name@);
                        assert(fm[oi as int] == files@[oi as int]@);
                    }
                    let t = Test {
                        test_name: stem.to_owned(),
                        input: copy_bytes(&files[k].content),
                        output: copy_bytes(&files[oi].content),
                    };
                    let ghost tests_before = tests@;
                    tests.push(t);
                    proof {
                        let rest = collect_tests_spec(fm.skip(k as int + 1), fm, number);
                        assert(test_models(tests@) =~= test_models(tests_before).push(t@));
                        match rest {
                            Ok(rs) => {
                                assert(collect_tests_spec(fm.skip(k as int), fm, number)
                                    == Ok::<Seq<TestModel>, LoadErrorModel>(seq![t@] + rs));
                                assert(test_models(tests_before) + (seq![t@] + rs) =~= test_models(
                                    tests@,
                                ) + rs);
                            },
                            Err(_) => {},
                        }
                    }
                },
                None => {
                    proof {
                        assert(collect_tests_spec(fm.skip(k as int), fm, number)
                            == Err::<Seq<TestModel>, LoadErrorModel>(
                            LoadErrorModel::MissingOutput {
                                problem: number,
                                test_name: test_stem(fm[k as int].name),
                            },
                        ));
                    }
                    return Err(LoadError::MissingOutput { problem: number, test_name: stem.to_owned() });
                },
            }
        }
        k = k + 1;
    }
    proof {
        assert(fm.skip(fm.len() as int) =~= Seq::<FileModel>::empty());
        assert(test_models(tests@) + Seq::<TestModel>::empty() =~= test_models(tests@));
    }
    sort_tests(&mut tests);
    Ok(Problem { title, description, tests })
}

/// Whether some directory carries the given number, and the first such
/// directory yields a problem.
pub open spec fn dir_ok(dm: Seq<DirModel>, n: u64) -> bool {
    find_dir_spec(dm, n) matches Some(j) && build_problem_spec(n, dm[j].files) is Ok
}

/// `p` is the problem that the first directory numbered `n` describes.
pub open spec fn problem_built(dm: Seq<DirModel>, n: u64, p: Problem) -> bool {
    find_dir_spec(dm, n) matches Some(j) && build_problem_spec(n, dm[j].files) matches Ok(pm)
        && p.title@ == pm.title && p.description@ == pm.description && sorted_by_name(
        test_models(p.tests@),
    ) && test_models(p.tests@).to_multiset() == pm.tests.to_multiset()
}

/// Directories numbered 1 through `k` are present and yield problems, and
/// the directory numbered `k + 1` is present but fails with `e`.
pub open spec fn problems_fail_at(dm: Seq<DirModel>, k: int, e: LoadErrorModel) -> bool {
    &&& 0 <= k < 0xFFFF_FFFFu64
    &&& forall|n: u64| 1 <= n <= k ==> dir_ok(dm, n)
    &&& find_dir_spec(dm, (k + 1) as u64) matches Some(j) && build_problem_spec(
        (k + 1) as u64,
        dm[j].files,
    ) == Err::<ProblemModel, LoadErrorModel>(e)
}

impl Problem {
    /// Build the problem list from the numbered fixture directories: problem
    /// `i` comes from the first directory numbered `i`, for `i` ascending
    /// from 1 up to the first number with no directory. The first directory
    /// that cannot be assembled stops the whole load with its error.
    pub fn from_dir(dirs: &Vec<ProblemDir>) -> (r: Result<Vec<Problem>, LoadError>)
        ensures
            match r {
                Ok(ps) => {
                    &&& ps@.len() < 0xFFFF_FFFFu64
                    &&& ps@.len() + 1 < 0xFFFF_FFFFu64 ==> find_dir_spec(
                        dir_models(dirs@),
                        (ps@.len() + 1) as u64,
                    ) is None
                    &&& forall|i: int|
                        0 <= i < ps@.len() ==> problem_built(
                            dir_models(dirs@),
                            (i + 1) as u64,
                            #[trigger] ps@[i],
                        )
                },
                Err(e) => exists|k: int| problems_fail_at(dir_models(dirs@), k, e@),
            },
    {
        let ghost dm = dir_models(dirs@);
        let mut rv: Vec<Problem> = Vec::new();
        let mut i: u64 = 1;
        while i < 0xFFFF_FFFFu64
            invariant
                dm == dir_models(dirs@),
                1 <= i <= 0xFFFF_FFFFu64,
                rv@.len() == i - 1,
                forall|n: int|
                    0 <= n < rv@.len() ==> problem_built(dm, (n + 1) as u64, #[trigger] rv@[n]),
                forall|n: u64| 1 <= n < i ==> dir_ok(dm, n),
            decreases 0xFFFF_FFFFu64 - i,
        {
            match find_dir(dirs, i) {
                None => {
                    return Ok(rv);
                },
                Some(j) => {
                    proof {
                        lemma_find_dir_spec(dm, i);
                        assert(dm[j as int] == dirs@[j as int]@);
                    }
                    match build_problem(i, &dirs[j].files) {
                        Ok(p) => {
                            rv.push(p);
                        },
                        Err(e) => {
                            proof {
                                assert(problems_fail_at(dm, i - 1, e@));
                            }
                            return Err(e);
                        },
                    }
                },
            }
            i = i + 1;
        }
        Ok(rv)
    }
}

} // verus!
