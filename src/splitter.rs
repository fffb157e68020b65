//! The split itself, as a machine that is fed the source's lines one at a
//! time and says, for each, what to do with the output files.
use crate::chunks::chunks;
use crate::error::{Error, unnamed_source_message, zero_lines_message};
use crate::path::{generate_output_file_path, has_stem_and_extension, output_name};
use vstd::prelude::*;

verus! {

/// An output file: its path and its lines, in order.
pub type FileModel = (Seq<char>, Seq<Seq<char>>);

/// An output file with its full contents.
pub struct OutputFile {
    pub path: String,
    pub lines: Vec<String>,
}

impl View for OutputFile {
    type V = FileModel;

    open spec fn view(&self) -> FileModel {
        (self.path@, self.lines.deep_view())
    }
}

/// What the caller does after handing a line to the splitter.
pub enum Emit {
    /// Nothing to write yet.
    Nothing,
    /// Create (or truncate) the file and write these lines to it.
    Create(OutputFile),
    /// Append this line to the file created last.
    Append(String),
}

/// The files after carrying out `e` on `files`.
pub open spec fn apply(files: Seq<FileModel>, e: Emit) -> Seq<FileModel> {
    match e {
        Emit::Nothing => files,
        Emit::Create(f) => files.push(f@),
        Emit::Append(l) => if files.len() == 0 {
            files
        } else {
            files.update(files.len() - 1, (files.last().0, files.last().1.push(l@)))
        },
    }
}

/// How many leading lines of a source of `len` lines are header lines.
pub open spec fn header_len(len: nat, h: nat) -> nat {
    if h <= len { h } else { len }
}

/// The header lines of `src`: its first `h` lines, or all of it if shorter.
pub open spec fn header_of(src: Seq<Seq<char>>, h: nat) -> Seq<Seq<char>> {
    src.take(header_len(src.len(), h) as int)
}

/// The data lines of `src`: what follows the header lines.
pub open spec fn data_of(src: Seq<Seq<char>>, h: nat) -> Seq<Seq<char>> {
    src.skip(header_len(src.len(), h) as int)
}

/// One file per chunk, numbered from 1, each the header followed by its chunk.
pub open spec fn files_of(p: Seq<char>, header: Seq<Seq<char>>, cs: Seq<Seq<Seq<char>>>) -> Seq<FileModel> {
    Seq::new(cs.len(), |i: int| (output_name(p, (i + 1) as nat), header + cs[i]))
}

/// The files of splitting source `src` at path `p` into chunks of `n` data
/// lines after `h` header lines. A source without data lines still gives one
/// file, holding the header alone.
pub open spec fn split_files(p: Seq<char>, src: Seq<Seq<char>>, n: nat, h: nat) -> Seq<FileModel> {
    let data = data_of(src, h);
    files_of(p, header_of(src, h), if data.len() == 0 { seq![seq![]] } else { chunks(data, n) })
}

/// The files written once the lines `src` have been read, before the end of
/// the source is known: one per chunk begun.
pub open spec fn files_so_far(p: Seq<char>, src: Seq<Seq<char>>, n: nat, h: nat) -> Seq<FileModel> {
    files_of(p, header_of(src, h), chunks(data_of(src, h), n))
}

/// The models of a sequence of output files.
pub open spec fn files_view(v: Seq<OutputFile>) -> Seq<FileModel> {
    v.map_values(|f: OutputFile| f@)
}

/// A split in progress over the source at one path.
pub struct Splitter {
    path: String,
    num_lines: usize,
    num_header_lines: usize,
    header: Vec<String>,
    files: usize,
    in_last: usize,
    read: Ghost<Seq<Seq<char>>>,
}

impl Splitter {
    /// The source path.
    pub closed spec fn path(&self) -> Seq<char> {
        self.path@
    }

    /// The largest number of data lines in one file.
    pub closed spec fn num_lines(&self) -> nat {
        self.num_lines as nat
    }

    /// The number of leading lines repeated in every file.
    pub closed spec fn num_header_lines(&self) -> nat {
        self.num_header_lines as nat
    }

    /// The source lines read so far.
    pub closed spec fn lines_read(&self) -> Seq<Seq<char>> {
        self.read@
    }

    /// The files written so far.
    pub open spec fn written(&self) -> Seq<FileModel> {
        files_so_far(self.path(), self.lines_read(), self.num_lines(), self.num_header_lines())
    }

    /// The files of the whole split, if the source ends here.
    pub open spec fn result(&self) -> Seq<FileModel> {
        split_files(self.path(), self.lines_read(), self.num_lines(), self.num_header_lines())
    }

    pub closed spec fn wf(&self) -> bool {
        let data = data_of(self.read@, self.num_header_lines as nat);
        let cs = chunks(data, self.num_lines as nat);
        &&& self.num_lines > 0
        &&& has_stem_and_extension(self.path@)
        &&& self.header.deep_view() == header_of(self.read@, self.num_header_lines as nat)
        &&& self.files == cs.len()
        &&& self.files > 0 ==> self.in_last == cs.last().len()
        &&& self.in_last <= self.num_lines
    }

    /// Starts a split of the source at `path` into files of at most
    /// `num_lines` data lines, each beginning with the source's first
    /// `num_header_lines` lines. Fails, before anything is read or written,
    /// where `num_lines` is 0 or the source's file name lacks a stem or an
    /// extension.
    pub fn new(path: &str, num_lines: usize, num_header_lines: usize) -> (r: Result<Splitter, Error>)
        ensures
            num_lines == 0 ==> (r matches Err(Error::App(m)) && m@ == zero_lines_message()),
            num_lines > 0 && !has_stem_and_extension(path@) ==> (r matches Err(Error::App(m))
                && m@ == unnamed_source_message()),
            num_lines > 0 && has_stem_and_extension(path@) ==> (r matches Ok(s) && s.wf()
                && s.path() == path@ && s.num_lines() == num_lines
                && s.num_header_lines() == num_header_lines && s.lines_read() == Seq::<Seq<char>>::empty()),
    {
        if num_lines == 0 {
            return Err(Error::zero_lines());
        }
        if let Err(e) = generate_output_file_path(path, 1) {
            return Err(e);
        }
        let s = Splitter {
            path: path.to_string(),
            num_lines,
            num_header_lines,
            header: Vec::new(),
            files: 0,
            in_last: 0,
            read: Ghost(Seq::empty()),
        };
        proof {
            assert(s.header.deep_view() =~= header_of(s.read@, num_header_lines as nat));
            assert(data_of(s.read@, num_header_lines as nat).len() == 0);
        }
        Ok(s)
    }

    /// The number of files begun so far.
    pub fn file_count(&self) -> (r: usize)
        requires
            self.wf(),
        ensures
            r == self.written().len(),
    {
        self.files
    }

    /// The file that begins chunk `k`: its path, the header and `line`.
    fn start_file(&self, k: usize, line: String) -> (r: OutputFile)
        requires
            self.wf(),
        ensures
            r@ == (output_name(self.path(), k as nat), self.header.deep_view().push(line@)),
    {
        let path = match generate_output_file_path(self.path.as_str(), k) {
            Ok(p) => p,
            Err(_) => {
                assert(false);
                String::new()
            },
        };
        let mut lines = self.header.clone();
        lines.push(line);
        proof {
            assert(lines.deep_view() =~= self.header.deep_view().push(line@));
        }
        OutputFile { path, lines }
    }

    /// Takes the next line of the source and says what to write for it:
    /// nothing while header lines are still being read; then either a new
    /// file, made of the header and this line, or this line appended to the
    /// last file, which is full after `num_lines` data lines.
    pub fn feed(&mut self, line: String) -> (e: Emit)
        requires
            old(self).wf(),
            old(self).written().len() < usize::MAX,
        ensures
            final(self).wf(),
            final(self).path() == old(self).path(),
            final(self).num_lines() == old(self).num_lines(),
            final(self).num_header_lines() == old(self).num_header_lines(),
            final(self).lines_read() == old(self).lines_read().push(line@),
            final(self).written() == apply(old(self).written(), e),
    {
        let ghost l = line@;
        let ghost read = self.read@;
        let ghost h = self.num_header_lines as nat;
        let ghost n = self.num_lines as nat;
        let ghost p = self.path@;
        let ghost read2 = read.push(l);
        if self.header.len() < self.num_header_lines {
            proof {
                assert(self.header.deep_view().len() == self.header.len());
                assert(read.len() < h);
                assert(data_of(read, h).len() == 0);
                assert(data_of(read2, h).len() == 0);
            }
            let ghost hv = self.header.deep_view();
            self.header.push(line);
            self.read = Ghost(read2);
            proof {
                assert(self.header.deep_view() =~= hv.push(l));
                assert(self.header.deep_view() =~= header_of(read2, h));
                assert(files_so_far(p, read, n, h) =~= files_so_far(p, read2, n, h));
            }
            Emit::Nothing
        } else {
            proof {
                assert(self.header.deep_view().len() == self.header.len());
                assert(read.len() >= h);
                assert(header_of(read2, h) =~= header_of(read, h));
                assert(data_of(read2, h) =~= data_of(read, h).push(l));
                assert(data_of(read2, h).drop_last() =~= data_of(read, h));
            }
            let ghost old_files = files_so_far(p, read, n, h);
            if self.files == 0 || self.in_last == self.num_lines {
                let f = self.start_file(self.files + 1, line);
                self.files = self.files + 1;
                self.in_last = 1;
                self.read = Ghost(read2);
                proof {
                    let cs = chunks(data_of(read, h), n);
                    assert(chunks(data_of(read2, h), n) == cs.push(seq![l]));
                    assert(header_of(read, h) + seq![l] =~= header_of(read, h).push(l));
                    assert(files_so_far(p, read2, n, h) =~= old_files.push(f@));
                }
                Emit::Create(f)
            } else {
                self.in_last = self.in_last + 1;
                self.read = Ghost(read2);
                proof {
                    let new_files = files_so_far(p, read2, n, h);
                    let cs = chunks(data_of(read, h), n);
                    assert(new_files.len() == old_files.len());
                    assert forall|i: int| 0 <= i < new_files.len() implies new_files[i]
                        == apply(old_files, Emit::Append(line))[i] by {
                        if i == new_files.len() - 1 {
                            assert(header_of(read, h) + cs.last().push(l) =~= (header_of(read, h)
                                + cs.last()).push(l));
                        }
                    }
                    assert(new_files =~= apply(old_files, Emit::Append(line)));
                }
                Emit::Append(line)
            }
        }
    }

    /// Ends the split at the end of the source: where no file was begun, the
    /// one file of the header alone is written. Returns what to write and the
    /// number of files of the whole split.
    pub fn finish(self) -> (r: (Emit, usize))
        requires
            self.wf(),
        ensures
            self.result() == apply(self.written(), r.0),
            r.1 == self.result().len(),
    {
        let ghost h = self.num_header_lines as nat;
        let ghost n = self.num_lines as nat;
        let ghost p = self.path@;
        let ghost read = self.read@;
        proof {
            crate::chunks::lemma_chunks_shape(data_of(read, h), n);
        }
        if self.files == 0 {
            let path = match generate_output_file_path(self.path.as_str(), 1) {
                Ok(p) => p,
                Err(_) => {
                    assert(false);
                    String::new()
                },
            };
            let f = OutputFile { path, lines: self.header };
            proof {
                assert(split_files(p, read, n, h) =~= seq![f@]);
                assert(files_so_far(p, read, n, h) =~= Seq::<FileModel>::empty());
                assert(seq![f@] =~= Seq::<FileModel>::empty().push(f@));
            }
            (Emit::Create(f), 1)
        } else {
            proof {
                assert(split_files(p, read, n, h) =~= files_so_far(p, read, n, h));
            }
            (Emit::Nothing, self.files)
        }
    }
}

/// Carries out `e` on the files held in `files`.
fn carry_out(files: &mut Vec<OutputFile>, e: Emit)
    ensures
        files_view(final(files)@) == apply(files_view(old(files)@), e),
{
    match e {
        Emit::Nothing => {},
        Emit::Create(f) => {
            files.push(f);
            assert(files_view(final(files)@) =~= files_view(old(files)@).push(f@));
        },
        Emit::Append(l) => {
            match files.pop() {
                Some(f) => {
                    let mut f = f;
                    let ghost lv = f.lines.deep_view();
                    f.lines.push(l);
                    assert(f.lines.deep_view() =~= lv.push(l@));
                    files.push(f);
                    assert(files_view(final(files)@) =~= apply(files_view(old(files)@), Emit::Append(l)));
                },
                None => {},
            }
        },
    }
}

/// Splits a source held in memory: `lines` are the lines of the source at
/// `path`, and the result is the files of the split, in order. Fails as
/// [`Splitter::new`] does.
pub fn split_lines(path: &str, lines: &Vec<String>, num_lines: usize, num_header_lines: usize) -> (r:
    Result<Vec<OutputFile>, Error>)
    ensures
        num_lines == 0 ==> (r matches Err(Error::App(m)) && m@ == zero_lines_message()),
        num_lines > 0 && !has_stem_and_extension(path@) ==> (r matches Err(Error::App(m))
            && m@ == unnamed_source_message()),
        num_lines > 0 && has_stem_and_extension(path@) ==> (r matches Ok(fs) && files_view(fs@)
            == split_files(path@, lines.deep_view(), num_lines as nat, num_header_lines as nat)),
{
    let mut sp = match Splitter::new(path, num_lines, num_header_lines) {
        Ok(s) => s,
        Err(e) => return Err(e),
    };
    let mut out: Vec<OutputFile> = Vec::new();
    let mut i: usize = 0;
    while i < lines.len()
        invariant
            sp.wf(),
            sp.path() == path@,
            sp.num_lines() == num_lines,
            sp.num_header_lines() == num_header_lines,
            i <= lines.len(),
            sp.lines_read() == lines.deep_view().take(i as int),
            files_view(out@) == sp.written(),
        decreases lines.len() - i,
    {
        proof {
            let h = num_header_lines as nat;
            crate::chunks::lemma_chunk_count_le(data_of(sp.lines_read(), h), num_lines as nat);
        }
        let line = lines[i].clone();
        let e = sp.feed(line);
        carry_out(&mut out, e);
        i = i + 1;
        assert(sp.lines_read() =~= lines.deep_view().take(i as int));
    }
    assert(lines.deep_view().take(i as int) =~= lines.deep_view());
    let (e, _) = sp.finish();
    carry_out(&mut out, e);
    Ok(out)
}

} // verus!
