//! The project's memory bank: a directory of Markdown notes. This module says
//! where the notes live, what a new bank is seeded with, and which files a
//! client of the bank creates, writes and reads; the file system itself is
//! reached through `NoteFiles`.
use vstd::prelude::*;
use vstd::string::*;

use crate::error::{LoopError, Result};
use crate::loop_runner::{MemoryBankClient, MemoryCall};

verus! {

pub const INDEX_NOTE: &'static str = "# Memory Bank\n\n- [architecture/agent-loop.md](architecture/agent-loop.md): loop architecture\n- [guides/agent-loop.md](guides/agent-loop.md): operational guide\n";

pub const ARCHITECTURE_NOTE: &'static str = "# Agent Loop Architecture\n\nSingle-run orchestrator with parent/child task model and hybrid done evaluator.\n";

pub const GUIDE_NOTE: &'static str = "# Agent Loop Guide\n\nRun `agent-loop run` to process one parent task end-to-end.\n";

/// A memory bank rooted at a directory.
#[derive(Debug, Clone)]
pub struct FileMemoryBank {
    root: String,
}

/// A note that a new bank is seeded with.
#[derive(Debug, Clone)]
pub struct SeedNote {
    pub path: String,
    pub content: String,
}

/// `rel` under `root`, as `Path::join` gives it for a relative `rel`: a
/// separator is added unless `root` is empty or already ends with one.
pub open spec fn join_path(root: Seq<char>, rel: Seq<char>) -> Seq<char> {
    if root.len() == 0 {
        rel
    } else if root.last() == '/' {
        root + rel
    } else {
        root + "/"@ + rel
    }
}

/// `Path::join` for a relative path.
pub fn join_relative(root: &str, rel: &str) -> (r: String)
    ensures
        r@ == join_path(root@, rel@),
{
    let v = crate::text::chars_of(root);
    let mut r = String::from_str(root);
    if v.len() == 0 {
        return String::from_str(rel);
    }
    if v[v.len() - 1] != '/' {
        r.append("/");
    }
    r.append(rel);
    r
}

impl FileMemoryBank {
    pub closed spec fn root_path(&self) -> Seq<char> {
        self.root@
    }

    pub fn new(root: &str) -> (r: Self)
        ensures
            r.root_path() == root@,
    {
        FileMemoryBank { root: String::from_str(root) }
    }

    pub fn index_path(&self) -> (r: String)
        ensures
            r@ == join_path(self.root_path(), "index.md"@),
    {
        join_relative(self.root.as_str(), "index.md")
    }

    pub fn architecture_path(&self) -> (r: String)
        ensures
            r@ == join_path(self.root_path(), "architecture/agent-loop.md"@),
    {
        join_relative(self.root.as_str(), "architecture/agent-loop.md")
    }

    pub fn guide_path(&self) -> (r: String)
        ensures
            r@ == join_path(self.root_path(), "guides/agent-loop.md"@),
    {
        join_relative(self.root.as_str(), "guides/agent-loop.md")
    }

    /// The directories that a bank needs.
    pub fn directories(&self) -> (r: Vec<String>)
        ensures
            r@.len() == 2,
            r@[0]@ == join_path(self.root_path(), "architecture"@),
            r@[1]@ == join_path(self.root_path(), "guides"@),
    {
        let mut r: Vec<String> = Vec::new();
        r.push(join_relative(self.root.as_str(), "architecture"));
        r.push(join_relative(self.root.as_str(), "guides"));
        r
    }

    /// The notes that a bank is seeded with, each written only where none exists.
    pub fn seed_notes(&self) -> (r: Vec<SeedNote>)
        ensures
            r@.len() == 3,
            r@[0].path@ == join_path(self.root_path(), "index.md"@),
            r@[0].content@ == INDEX_NOTE@,
            r@[1].path@ == join_path(self.root_path(), "architecture/agent-loop.md"@),
            r@[1].content@ == ARCHITECTURE_NOTE@,
            r@[2].path@ == join_path(self.root_path(), "guides/agent-loop.md"@),
            r@[2].content@ == GUIDE_NOTE@,
    {
        let mut r: Vec<SeedNote> = Vec::new();
        r.push(SeedNote { path: self.index_path(), content: String::from_str(INDEX_NOTE) });
        r.push(
            SeedNote {
                path: self.architecture_path(),
                content: String::from_str(ARCHITECTURE_NOTE),
            },
        );
        r.push(SeedNote { path: self.guide_path(), content: String::from_str(GUIDE_NOTE) });
        r
    }
}


/// The file system that a memory bank lives on.
///
/// Each `..._gives` function is the implementation's account of what the
/// matching call can yield; by default it admits every outcome.
pub trait NoteFiles {
    open spec fn dir_gives(&self, path: Seq<char>, r: Result<()>) -> bool {
        true
    }

    open spec fn present_gives(&self, path: Seq<char>, r: bool) -> bool {
        true
    }

    open spec fn write_gives(&self, path: Seq<char>, content: Seq<char>, r: Result<()>) -> bool {
        true
    }

    open spec fn read_gives(&self, path: Seq<char>, r: Result<String>) -> bool {
        true
    }

    /// Creates a directory and its missing parents.
    fn create_dir_all(&self, path: &str) -> (r: Result<()>)
        ensures
            self.dir_gives(path@, r),
    ;

    /// Whether something is at `path`.
    fn is_present(&self, path: &str) -> (r: bool)
        ensures
            self.present_gives(path@, r),
    ;

    /// Writes `content` to the file at `path`.
    fn write(&self, path: &str, content: &str) -> (r: Result<()>)
        ensures
            self.write_gives(path@, content@, r),
    ;

    /// The text of the file at `path`.
    fn read(&self, path: &str) -> (r: Result<String>)
        ensures
            self.read_gives(path@, r),
    ;
}

/// A file operation a memory bank made, with what it yielded.
pub enum FileOp {
    CreateDir { path: Seq<char>, result: Result<()> },
    Present { path: Seq<char>, result: bool },
    Write { path: Seq<char>, content: Seq<char>, result: Result<()> },
    Read { path: Seq<char>, result: Result<String> },
}

pub open spec fn op_unit(op: FileOp) -> Result<()> {
    match op {
        FileOp::CreateDir { result, .. } => result,
        FileOp::Write { result, .. } => result,
        FileOp::Read { result, .. } => match result {
            Ok(_) => Ok(()),
            Err(e) => Err(e),
        },
        FileOp::Present { .. } => Ok(()),
    }
}

pub open spec fn op_present(op: FileOp) -> bool {
    match op {
        FileOp::Present { result, .. } => result,
        _ => false,
    }
}

/// Seeding the notes `notes` (path and content), in order, with the
/// operations `ops`: each note is looked for, and written only where nothing
/// is; a failed write stops it with that failure.
pub open spec fn seeds_ops(notes: Seq<(Seq<char>, Seq<char>)>, ops: Seq<FileOp>, r: Result<()>) -> bool
    decreases notes.len(),
{
    if notes.len() == 0 {
        ops.len() == 0 && r == Ok::<(), LoopError>(())
    } else {
        let (path, content) = notes[0];
        &&& ops.len() >= 1
        &&& ops[0] == (FileOp::Present { path, result: op_present(ops[0]) })
        &&& if op_present(ops[0]) {
            seeds_ops(notes.drop_first(), ops.skip(1), r)
        } else {
            &&& ops.len() >= 2
            &&& ops[1] == (FileOp::Write { path, content, result: op_unit(ops[1]) })
            &&& match op_unit(ops[1]) {
                Err(e) => ops.len() == 2 && r == Err::<(), LoopError>(e),
                Ok(_) => seeds_ops(notes.drop_first(), ops.skip(2), r),
            }
        }
    }
}

/// Seeding one note with the operations `ops`: it is looked for, and written
/// only where nothing is.
pub open spec fn seed_step(path: Seq<char>, content: Seq<char>, ops: Seq<FileOp>, r: Result<()>) -> bool {
    &&& ops.len() >= 1
    &&& ops[0] == (FileOp::Present { path, result: op_present(ops[0]) })
    &&& if op_present(ops[0]) {
        ops.len() == 1 && r == Ok::<(), LoopError>(())
    } else {
        &&& ops.len() == 2
        &&& ops[1] == (FileOp::Write { path, content, result: op_unit(ops[1]) })
        &&& r == op_unit(ops[1])
    }
}

/// The notes a bank rooted at `root` is seeded with, in order.
pub open spec fn seed_list(root: Seq<char>) -> Seq<(Seq<char>, Seq<char>)> {
    seq![
        (join_path(root, "index.md"@), INDEX_NOTE@),
        (join_path(root, "architecture/agent-loop.md"@), ARCHITECTURE_NOTE@),
        (join_path(root, "guides/agent-loop.md"@), GUIDE_NOTE@),
    ]
}

/// Making a bank exist with the operations `ops`: its two directories are
/// created, then its notes seeded; the first failure stops it.
pub open spec fn setup_ops(root: Seq<char>, ops: Seq<FileOp>, r: Result<()>) -> bool {
    &&& ops.len() >= 1
    &&& ops[0] == (FileOp::CreateDir { path: join_path(root, "architecture"@), result: op_unit(ops[0]) })
    &&& match op_unit(ops[0]) {
        Err(e) => ops.len() == 1 && r == Err::<(), LoopError>(e),
        Ok(_) => {
            &&& ops.len() >= 2
            &&& ops[1] == (FileOp::CreateDir {
                path: join_path(root, "guides"@),
                result: op_unit(ops[1]),
            })
            &&& match op_unit(ops[1]) {
                Err(e) => ops.len() == 2 && r == Err::<(), LoopError>(e),
                Ok(_) => seeds_ops(seed_list(root), ops.skip(2), r),
            }
        },
    }
}

/// Reading the notes at `paths`, in order, with the operations `ops`: the
/// first failed read stops it with that failure; what was read is not used.
pub open spec fn reads_ops(paths: Seq<Seq<char>>, ops: Seq<FileOp>, r: Result<()>) -> bool
    decreases paths.len(),
{
    if paths.len() == 0 {
        ops.len() == 0 && r == Ok::<(), LoopError>(())
    } else {
        &&& ops.len() >= 1
        &&& ops[0] is Read
        &&& ops[0]->Read_path == paths[0]
        &&& match op_unit(ops[0]) {
            Err(e) => ops.len() == 1 && r == Err::<(), LoopError>(e),
            Ok(_) => reads_ops(paths.drop_first(), ops.skip(1), r),
        }
    }
}

/// A memory bank on a file system, keeping a log of its calls and of the file
/// operations it made.
pub struct MemoryBank<F: NoteFiles> {
    bank: FileMemoryBank,
    files: F,
    calls: Ghost<Seq<MemoryCall>>,
    ops: Ghost<Seq<FileOp>>,
}

/// `a` is `b` but for its file operations.
pub open spec fn same_bank<F: NoteFiles>(a: MemoryBank<F>, b: MemoryBank<F>) -> bool {
    &&& a.root() == b.root()
    &&& a.files() == b.files()
    &&& a.log() == b.log()
}

impl<F: NoteFiles> MemoryBank<F> {
    pub closed spec fn root(&self) -> Seq<char> {
        self.bank.root_path()
    }

    pub closed spec fn files(&self) -> F {
        self.files
    }

    /// The file operations made so far, in order.
    pub closed spec fn ops(&self) -> Seq<FileOp> {
        self.ops@
    }

    pub fn new(bank: FileMemoryBank, files: F) -> (r: Self)
        ensures
            r.root() == bank.root_path(),
            r.files() == files,
            r.log() == Seq::<MemoryCall>::empty(),
            r.ops() == Seq::<FileOp>::empty(),
    {
        MemoryBank { bank, files, calls: Ghost(Seq::empty()), ops: Ghost(Seq::empty()) }
    }

    fn make_dir(&mut self, path: &str) -> (r: Result<()>)
        ensures
            same_bank(*final(self), *old(self)),
            old(self).files().dir_gives(path@, r),
            final(self).ops() == old(self).ops().push((FileOp::CreateDir { path: path@, result: r })),
    {
        let r = self.files.create_dir_all(path);
        self.ops = Ghost(self.ops@.push(FileOp::CreateDir { path: path@, result: r }));
        r
    }

    /// Writes a note where nothing is yet.
    fn seed(&mut self, path: &str, content: &str) -> (r: Result<()>)
        ensures
            same_bank(*final(self), *old(self)),
            ({
                let added = final(self).ops().skip(old(self).ops().len() as int);
                &&& final(self).ops() == old(self).ops() + added
                &&& seed_step(path@, content@, added, r)
            }),
    {
        let ghost before = self.ops@;
        let present = self.files.is_present(path);
        self.ops = Ghost(self.ops@.push(FileOp::Present { path: path@, result: present }));
        if present {
            proof {
                let added = self.ops@.skip(before.len() as int);
                assert(added =~= seq![FileOp::Present { path: path@, result: present }]);
                assert(self.ops@ =~= before + added);
                assert(seq![(path@, content@)].drop_first() =~= Seq::<(Seq<char>, Seq<char>)>::empty());
                assert(added.skip(1) =~= Seq::<FileOp>::empty());
            }
            return Ok(());
        }
        let w = self.files.write(path, content);
        self.ops = Ghost(
            self.ops@.push(FileOp::Write { path: path@, content: content@, result: w }),
        );
        proof {
            let added = self.ops@.skip(before.len() as int);
            assert(added =~= seq![
                FileOp::Present { path: path@, result: present },
                FileOp::Write { path: path@, content: content@, result: w },
            ]);
            assert(self.ops@ =~= before + added);
            assert(seq![(path@, content@)].drop_first() =~= Seq::<(Seq<char>, Seq<char>)>::empty());
            assert(added.skip(2) =~= Seq::<FileOp>::empty());
        }
        w
    }

    fn read_note(&mut self, path: &str) -> (r: Result<()>)
        ensures
            same_bank(*final(self), *old(self)),
            final(self).ops().len() == old(self).ops().len() + 1,
            final(self).ops().drop_last() == old(self).ops(),
            final(self).ops().last() is Read,
            final(self).ops().last()->Read_path == path@,
            r == op_unit(final(self).ops().last()),
    {
        let text = self.files.read(path);
        let ghost op = FileOp::Read { path: path@, result: text };
        self.ops = Ghost(self.ops@.push(op));
        proof {
            assert(self.ops@.drop_last() =~= old(self).ops@);
        }
        match text {
            Ok(_) => Ok(()),
            Err(e) => Err(e),
        }
    }

    /// Creates the directories and seeds the missing notes.
    fn set_up(&mut self) -> (r: Result<()>)
        ensures
            same_bank(*final(self), *old(self)),
            ({
                let added = final(self).ops().skip(old(self).ops().len() as int);
                &&& final(self).ops() == old(self).ops() + added
                &&& setup_ops(old(self).root(), added, r)
            }),
    {
        let ghost o0 = self.ops@;
        let ghost root = self.root();
        let dirs = self.bank.directories();
        let d0 = self.make_dir(dirs[0].as_str());
        let ghost a0 = self.ops@.skip(o0.len() as int);
        proof {
            assert(a0 =~= seq![FileOp::CreateDir { path: dirs@[0]@, result: d0 }]);
            assert(self.ops@ =~= o0 + a0);
        }
        match d0 {
            Ok(_) => {},
            Err(e) => return Err(e),
        }
        let d1 = self.make_dir(dirs[1].as_str());
        let ghost a1 = self.ops@.skip(o0.len() as int);
        proof {
            assert(a1 =~= seq![
                FileOp::CreateDir { path: dirs@[0]@, result: d0 },
                FileOp::CreateDir { path: dirs@[1]@, result: d1 },
            ]);
            assert(self.ops@ =~= o0 + a1);
        }
        match d1 {
            Ok(_) => {},
            Err(e) => return Err(e),
        }
        let notes = self.bank.seed_notes();
        let ghost list = seed_list(root);
        let ghost mut seeded: Seq<FileOp> = Seq::empty();
        let mut k: usize = 0;
        proof {
            assert(list.skip(0) =~= list);
            assert forall|rest: Seq<FileOp>, r: Result<()>| #[trigger]
                seeds_ops(list.skip(0), rest, r) implies seeds_ops(list, seeded + rest, r) by {
                assert(seeded + rest =~= rest);
            }
            assert(a1.skip(2) + seeded =~= a1.skip(2));
        }
        while k < notes.len()
            invariant
                k <= 3,
                notes@.len() == 3,
                list == seed_list(root),
                root == self.root(),
                forall|j: int|
                    0 <= j < 3 ==> (#[trigger] notes@[j]).path@ == list[j].0 && notes@[j].content@
                        == list[j].1,
                same_bank(*self, *old(self)),
                o0 == old(self).ops(),
                self.ops@ == o0 + a1 + seeded,
                a1.len() == 2,
                a1[0] == (FileOp::CreateDir { path: join_path(root, "architecture"@), result: d0 }),
                a1[1] == (FileOp::CreateDir { path: join_path(root, "guides"@), result: d1 }),
                d0 is Ok,
                d1 is Ok,
                forall|rest: Seq<FileOp>, r: Result<()>| #[trigger]
                    seeds_ops(list.skip(k as int), rest, r) ==> seeds_ops(list, seeded + rest, r),
            decreases 3 - k,
        {
            let ghost before = self.ops@;
            let w = self.seed(notes[k].path.as_str(), notes[k].content.as_str());
            let ghost step = self.ops@.skip(before.len() as int);
            proof {
                assert(list.skip(k as int)[0] == list[k as int]);
                assert(list.skip(k as int).drop_first() =~= list.skip(k + 1));
            }
            match w {
                Ok(_) => {
                    proof {
                        assert forall|rest: Seq<FileOp>, r: Result<()>| #[trigger]
                            seeds_ops(list.skip(k + 1), rest, r) implies seeds_ops(
                            list,
                            (seeded + step) + rest,
                            r,
                        ) by {
                            let n = step.len() as int;
                            assert((step + rest)[0] == step[0]);
                            if n == 2 {
                                assert((step + rest)[1] == step[1]);
                            }
                            assert((step + rest).skip(n) =~= rest);
                            assert(seeds_ops(list.skip(k as int), step + rest, r));
                            assert((seeded + step) + rest =~= seeded + (step + rest));
                        }
                        seeded = seeded + step;
                        assert(self.ops@ =~= o0 + a1 + seeded);
                    }
                },
                Err(e) => {
                    proof {
                        let n = step.len() as int;
                        assert(step + Seq::<FileOp>::empty() =~= step);
                        assert(seeds_ops(list.skip(k as int), step, Err(e)));
                        let added = self.ops@.skip(o0.len() as int);
                        assert(added =~= a1 + (seeded + step));
                        assert(added.skip(2) =~= seeded + step);
                    }
                    return Err(e);
                },
            }
            k = k + 1;
        }
        proof {
            assert(list.skip(3).len() == 0);
            assert(seeds_ops(list.skip(3), Seq::empty(), Ok(())));
            assert(seeded + Seq::<FileOp>::empty() =~= seeded);
            let added = self.ops@.skip(o0.len() as int);
            assert(added =~= a1 + seeded);
            assert(added.skip(2) =~= seeded);
        }
        Ok(())
    }
}

impl<F: NoteFiles> MemoryBankClient for MemoryBank<F> {
    closed spec fn log(&self) -> Seq<MemoryCall> {
        self.calls@
    }

    fn ensure_exists(&mut self) -> (r: Result<()>)
        ensures
            ({
                let added = final(self).ops().skip(old(self).ops().len() as int);
                &&& final(self).ops() == old(self).ops() + added
                &&& setup_ops(old(self).root(), added, r)
            }),
    {
        let r = self.set_up();
        self.calls = Ghost(self.calls@.push(MemoryCall::Exists { result: r }));
        r
    }

    fn prime(&mut self) -> (r: Result<()>)
        ensures
            ({
                let added = final(self).ops().skip(old(self).ops().len() as int);
                &&& final(self).ops() == old(self).ops() + added
                &&& reads_ops(seq![join_path(old(self).root(), "index.md"@)], added, r)
            }),
    {
        let ghost o0 = self.ops@;
        let path = self.bank.index_path();
        let r = self.read_note(path.as_str());
        proof {
            let added = self.ops@.skip(o0.len() as int);
            assert(added =~= seq![self.ops@.last()]);
            assert(self.ops@ =~= o0 + added);
            assert(added.skip(1) =~= Seq::<FileOp>::empty());
            assert(seq![join_path(self.root(), "index.md"@)].drop_first() =~= Seq::<Seq<char>>::empty());
            assert(reads_ops(
                seq![join_path(self.root(), "index.md"@)].drop_first(),
                added.skip(1),
                r,
            ) || r is Err);
        }
        self.calls = Ghost(self.calls@.push(MemoryCall::Prime { result: r }));
        r
    }

    fn prepare(&mut self, topic: &str) -> (r: Result<()>)
        ensures
            ({
                let added = final(self).ops().skip(old(self).ops().len() as int);
                &&& final(self).ops() == old(self).ops() + added
                &&& reads_ops(
                    seq![
                        join_path(old(self).root(), "architecture/agent-loop.md"@),
                        join_path(old(self).root(), "guides/agent-loop.md"@),
                    ],
                    added,
                    r,
                )
            }),
    {
        let ghost o0 = self.ops@;
        let ghost paths = seq![
            join_path(self.root(), "architecture/agent-loop.md"@),
            join_path(self.root(), "guides/agent-loop.md"@),
        ];
        let first = self.bank.architecture_path();
        let a = self.read_note(first.as_str());
        let ghost o1 = self.ops@;
        proof {
            assert(paths.drop_first() =~= seq![paths[1]]);
            assert(seq![paths[1]].drop_first() =~= Seq::<Seq<char>>::empty());
        }
        let r = match a {
            Err(e) => {
                proof {
                    let added = self.ops@.skip(o0.len() as int);
                    assert(added =~= seq![o1.last()]);
                    assert(self.ops@ =~= o0 + added);
                }
                Err(e)
            },
            Ok(_) => {
                let second = self.bank.guide_path();
                let b = self.read_note(second.as_str());
                proof {
                    let added = self.ops@.skip(o0.len() as int);
                    assert(added =~= seq![o1.last(), self.ops@.last()]);
                    assert(self.ops@ =~= o0 + added);
                    assert(added.skip(1) =~= seq![self.ops@.last()]);
                    assert(added.skip(1).skip(1) =~= Seq::<FileOp>::empty());
                    assert(reads_ops(seq![paths[1]].drop_first(), added.skip(1).skip(1), b) || b is Err);
                    assert(reads_ops(paths.drop_first(), added.skip(1), b));
                }
                b
            },
        };
        self.calls = Ghost(self.calls@.push(MemoryCall::Prepare { topic: topic@, result: r }));
        r
    }
}

} // verus!
