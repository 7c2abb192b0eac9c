//! Directory listing: the entries a directory read yields, with `.` and `..`
//! left out, and the full paths of those entries.
//!
//! Reading the directory itself is the caller's part. `ReadDir::step` says
//! what the iterator does next: yield an entry, stop, or ask for the next
//! batch of raw entries, which the caller reads and hands to
//! `ReadDir::refill`.

use vstd::prelude::*;
use vstd::string::*;

verus! {

/// The kind of file a directory entry names.
#[derive(Clone, Copy, Debug, PartialEq, Eq, Structural)]
pub enum FileType {
    Fifo,
    CharDevice,
    Dir,
    BlockDevice,
    File,
    SymLink,
    Socket,
}

/// Number of raw entries one directory read fills at most.
pub const DIRENT_BUF_LEN: usize = 31;

/// `s` with every trailing `/` removed.
pub open spec fn trim_trailing_slashes(s: Seq<char>) -> Seq<char>
    decreases s.len(),
{
    if s.len() > 0 && s.last() == '/' {
        trim_trailing_slashes(s.drop_last())
    } else {
        s
    }
}

/// `str::trim_end_matches` with the pattern `'/'`: the slice with every
/// trailing `/` removed, as the standard library documents it ("all suffixes
/// that match a pattern repeatedly removed").
#[verifier::external_body]
fn trim_end_slashes<'b>(s: &'b str) -> (r: &'b str)
    ensures
        r@ == trim_trailing_slashes(s@),
{
    s.trim_end_matches('/')
}

/// What `{:?}` prints for a string: the string in double quotes, with
/// quotes, backslashes and non-printable characters escaped.
pub uninterp spec fn str_debug_repr(s: Seq<char>) -> Seq<char>;

/// `<str as Debug>::fmt`: the quoted, escaped form of `s`.
#[verifier::external_body]
fn debug_quoted(s: &str) -> (r: String)
    ensures
        r@ == str_debug_repr(s@),
{
    format!("{:?}", s)
}

/// The debug form of a directory entry whose quoted path is `quoted_path`:
/// `DirEntry(`, the quoted path, `)`.
pub fn dir_entry_debug(quoted_path: &str) -> (r: String)
    ensures
        r@ == "DirEntry("@ + quoted_path@ + ")"@,
{
    String::from_str("DirEntry(").concat(quoted_path).concat(")")
}

/// An entry of a directory.
pub struct DirEntry<'a> {
    dir_path: &'a str,
    entry_name: String,
    entry_type: FileType,
}

impl<'a> DirEntry<'a> {
    /// The path of the directory the entry was read from.
    pub closed spec fn dir_path_view(&self) -> Seq<char> {
        self.dir_path@
    }

    /// The bare name of the entry.
    pub closed spec fn name_view(&self) -> Seq<char> {
        self.entry_name@
    }

    /// The kind of file the entry names.
    pub closed spec fn type_view(&self) -> FileType {
        self.entry_type
    }

    /// The entry called `entry_name`, of kind `entry_type`, in the directory
    /// at `dir_path`.
    pub fn new(dir_path: &'a str, entry_name: String, entry_type: FileType) -> (e: Self)
        ensures
            e.dir_path_view() == dir_path@,
            e.name_view() == entry_name@,
            e.type_view() == entry_type,
    {
        DirEntry { dir_path, entry_name, entry_type }
    }

    /// The full path of the entry: the directory path with its trailing
    /// slashes removed, a `/`, and the entry's name.
    pub fn path(&self) -> (p: String)
        ensures
            p@ == trim_trailing_slashes(self.dir_path_view()) + seq!['/'] + self.name_view(),
    {
        let dir = trim_end_slashes(self.dir_path);
        proof {
            reveal_strlit("/");
        }
        String::from_str(dir).concat("/").concat(self.entry_name.as_str())
    }

    /// The debug form of the entry: `DirEntry(` and its quoted full path, then
    /// `)`.
    pub fn debug_string(&self) -> (r: String)
        ensures
            r@ == "DirEntry("@ + str_debug_repr(
                trim_trailing_slashes(self.dir_path_view()) + seq!['/'] + self.name_view(),
            ) + ")"@,
    {
        let p = self.path();
        let q = debug_quoted(p.as_str());
        dir_entry_debug(q.as_str())
    }

    /// The bare name of the entry, without any leading path component.
    pub fn file_name(&self) -> (n: String)
        ensures
            n@ == self.name_view(),
    {
        self.entry_name.clone()
    }

    /// The kind of file the entry names.
    pub fn file_type(&self) -> (t: FileType)
        ensures
            t == self.type_view(),
    {
        self.entry_type
    }
}

/// An entry as a directory read hands it over, `.` and `..` included.
pub struct RawDirEntry {
    pub name: String,
    pub entry_type: FileType,
}

/// `name` is `.` or `..`.
pub open spec fn is_dot_name(name: Seq<char>) -> bool {
    name == seq!['.'] || name == seq!['.', '.']
}

/// `entries` with its leading `.` and `..` entries dropped.
pub open spec fn skip_dots(entries: Seq<RawDirEntry>) -> Seq<RawDirEntry>
    decreases entries.len(),
{
    if entries.len() > 0 && is_dot_name(entries[0].name@) {
        skip_dots(entries.drop_first())
    } else {
        entries
    }
}

/// Whether `name` is `.` or `..`.
fn dot_name(name: &String) -> (b: bool)
    ensures
        b == is_dot_name(name@),
        b == (name@ == seq!['.'] || name@ == seq!['.', '.']),
{
    let s = name.as_str();
    let n = s.unicode_len();
    if n == 1 {
        let b = s.get_char(0) == '.';
        proof {
            if b {
                assert(name@ =~= seq!['.']);
            }
        }
        b
    } else if n == 2 {
        let b = s.get_char(0) == '.' && s.get_char(1) == '.';
        proof {
            if b {
                assert(name@ =~= seq!['.', '.']);
            }
        }
        b
    } else {
        false
    }
}

/// The name and kind of each entry of `entries` that is neither `.` nor
/// `..`, in order.
pub open spec fn listed(entries: Seq<RawDirEntry>) -> Seq<(Seq<char>, FileType)>
    decreases entries.len(),
{
    if entries.len() == 0 {
        Seq::empty()
    } else if is_dot_name(entries[0].name@) {
        listed(entries.drop_first())
    } else {
        seq![(entries[0].name@, entries[0].entry_type)] + listed(entries.drop_first())
    }
}

proof fn lemma_listed_concat(a: Seq<RawDirEntry>, b: Seq<RawDirEntry>)
    ensures
        listed(a + b) == listed(a) + listed(b),
    decreases a.len(),
{
    if a.len() == 0 {
        assert(a + b =~= b);
    } else {
        assert((a + b).drop_first() =~= a.drop_first() + b);
        lemma_listed_concat(a.drop_first(), b);
    }
}

/// What the directory iterator does next.
pub enum ReadDirStep<'a> {
    /// The buffered entries are used up: the next batch is to be read and
    /// handed to `ReadDir::refill`.
    Refill,
    /// The next entry of the directory.
    Yield(DirEntry<'a>),
    /// The listing is over.
    End,
}

/// Iterator over the entries of a directory.
pub struct ReadDir<'a> {
    path: &'a str,
    buf_pos: usize,
    buf_end: usize,
    end_of_stream: bool,
    dirent_buf: Vec<RawDirEntry>,
    read_so_far: Ghost<Seq<RawDirEntry>>,
    yielded: Ghost<Seq<(Seq<char>, FileType)>>,
}

impl<'a> ReadDir<'a> {
    /// The path of the directory being listed.
    pub closed spec fn path_view(&self) -> Seq<char> {
        self.path@
    }

    /// The listing is over.
    pub closed spec fn ended(&self) -> bool {
        self.end_of_stream
    }

    /// The raw entries read but not yet looked at, in order.
    pub closed spec fn pending(&self) -> Seq<RawDirEntry> {
        self.dirent_buf@.subrange(self.buf_pos as int, self.buf_end as int)
    }

    /// Every raw entry read so far, batch after batch.
    pub closed spec fn read_view(&self) -> Seq<RawDirEntry> {
        self.read_so_far@
    }

    /// The name and kind of every entry yielded so far, in order.
    pub closed spec fn yielded_view(&self) -> Seq<(Seq<char>, FileType)> {
        self.yielded@
    }

    /// The buffer position stays within the buffered batch, an ended listing
    /// has nothing pending, and what was yielded followed by what is pending
    /// lists exactly what was read.
    pub closed spec fn wf(&self) -> bool {
        &&& self.buf_pos <= self.buf_end
        &&& self.buf_end == self.dirent_buf@.len()
        &&& self.buf_end <= DIRENT_BUF_LEN
        &&& self.end_of_stream ==> self.buf_pos == self.buf_end
        &&& self.yielded@ + listed(self.pending()) == listed(self.read_so_far@)
    }

    /// The iterator of a freshly opened directory at `path`: nothing read yet.
    pub fn new(path: &'a str) -> (r: Self)
        ensures
            r.wf(),
            r.path_view() == path@,
            !r.ended(),
            r.pending().len() == 0,
            r.read_view().len() == 0,
            r.yielded_view().len() == 0,
    {
        let r = ReadDir {
            path,
            buf_pos: 0,
            buf_end: 0,
            end_of_stream: false,
            dirent_buf: Vec::new(),
            read_so_far: Ghost(Seq::empty()),
            yielded: Ghost(Seq::empty()),
        };
        proof {
            assert(r.pending() =~= Seq::<RawDirEntry>::empty());
            assert(r.yielded@ + listed(r.pending()) =~= listed(r.read_so_far@));
        }
        r
    }

    /// The next move of the iterator. Once the listing is over it stays over.
    /// Otherwise, the `.` and `..` entries at the front of the pending ones are
    /// passed over; the first other entry is yielded, carrying this
    /// directory's path, or, when there is none, a refill is asked for.
    pub fn step(&mut self) -> (s: ReadDirStep<'a>)
        requires
            old(self).wf(),
        ensures
            final(self).wf(),
            final(self).path_view() == old(self).path_view(),
            final(self).ended() == old(self).ended(),
            final(self).read_view() == old(self).read_view(),
            s matches ReadDirStep::Yield(d) ==> final(self).yielded_view() == old(self).yielded_view().push(
                (d.name_view(), d.type_view()),
            ),
            !(s is Yield) ==> final(self).yielded_view() == old(self).yielded_view(),
            old(self).ended() ==> (s is End) && final(self).pending() == old(self).pending(),
            !old(self).ended() && skip_dots(old(self).pending()).len() == 0 ==> (s is Refill)
                && final(self).pending().len() == 0,
            !old(self).ended() && skip_dots(old(self).pending()).len() > 0 ==> match s {
                ReadDirStep::Yield(d) => {
                    &&& d.dir_path_view() == old(self).path_view()
                    &&& d.name_view() == skip_dots(old(self).pending())[0].name@
                    &&& d.type_view() == skip_dots(old(self).pending())[0].entry_type
                    &&& final(self).pending() == skip_dots(old(self).pending()).drop_first()
                },
                _ => false,
            },
    {
        if self.end_of_stream {
            return ReadDirStep::End;
        }
        while self.buf_pos < self.buf_end
            invariant
                self.wf(),
                !self.end_of_stream,
                !old(self).end_of_stream,
                self.path == old(self).path,
                self.read_so_far@ == old(self).read_so_far@,
                self.yielded@ == old(self).yielded@,
                skip_dots(self.pending()) == skip_dots(old(self).pending()),
            decreases self.buf_end - self.buf_pos,
        {
            let pos = self.buf_pos;
            let ghost p = self.pending();
            self.buf_pos = pos + 1;
            proof {
                assert(self.dirent_buf@.subrange(pos as int, self.buf_end as int).drop_first()
                    =~= self.pending());
                assert(p[0] == self.dirent_buf@[pos as int]);
            }
            if dot_name(&self.dirent_buf[pos].name) {
                continue;
            }
            let name = self.dirent_buf[pos].name.clone();
            let entry_type = self.dirent_buf[pos].entry_type;
            proof {
                let h = (name@, entry_type);
                assert(listed(p) == seq![h] + listed(self.pending()));
                assert(self.yielded@.push(h) + listed(self.pending()) =~= self.yielded@ + (seq![h]
                    + listed(self.pending())));
                self.yielded@ = self.yielded@.push(h);
            }
            return ReadDirStep::Yield(DirEntry { dir_path: self.path, entry_name: name, entry_type });
        }
        ReadDirStep::Refill
    }

    /// Takes the outcome of reading the next batch of raw entries after a
    /// refill was asked for. An empty batch ends the listing. An error ends
    /// it too and is handed back, to be yielded as the iterator's last item.
    pub fn refill<E>(&mut self, batch: Result<Vec<RawDirEntry>, E>) -> (err: Option<E>)
        requires
            old(self).wf(),
            !old(self).ended(),
            old(self).pending().len() == 0,
            batch matches Ok(v) ==> v@.len() <= DIRENT_BUF_LEN,
        ensures
            final(self).wf(),
            final(self).path_view() == old(self).path_view(),
            final(self).yielded_view() == old(self).yielded_view(),
            match batch {
                Ok(v) => final(self).read_view() == old(self).read_view() + v@,
                Err(_) => final(self).read_view() == old(self).read_view(),
            },
            match batch {
                Ok(v) => err is None && final(self).ended() == (v@.len() == 0) && final(self).pending() == v@,
                Err(e) => err == Some(e) && final(self).ended() && final(self).pending().len() == 0,
            },
    {
        match batch {
            Ok(v) => {
                proof {
                    assert(self.yielded@ + listed(self.pending()) =~= self.yielded@);
                    lemma_listed_concat(self.read_so_far@, v@);
                    self.read_so_far@ = self.read_so_far@ + v@;
                }
                if v.len() == 0 {
                    self.end_of_stream = true;
                }
                self.buf_pos = 0;
                self.buf_end = v.len();
                self.dirent_buf = v;
                proof {
                    assert(self.pending() =~= self.dirent_buf@);
                }
                None
            },
            Err(e) => {
                self.end_of_stream = true;
                Some(e)
            },
        }
    }
}

/// The names passed over are exactly `.` and `..`: a dot name is one or two
/// characters long and all dots, and each of those two names is one.
pub proof fn lemma_dot_names_are_dot_and_dotdot(name: Seq<char>)
    ensures
        is_dot_name(name) ==> 1 <= name.len() <= 2 && forall|i: int| 0 <= i < name.len() ==> name[i] == '.',
        name.len() == 1 && name[0] == '.' ==> is_dot_name(name),
        name.len() == 2 && name[0] == '.' && name[1] == '.' ==> is_dot_name(name),
{
    if name.len() == 1 && name[0] == '.' {
        assert(name =~= seq!['.']);
    }
    if name.len() == 2 && name[0] == '.' && name[1] == '.' {
        assert(name =~= seq!['.', '.']);
    }
}

/// An entry whose name is neither `.` nor `..` is listed, with its name and
/// kind, and listing a batch after another lists the two in turn.
pub proof fn lemma_other_names_are_listed(e: RawDirEntry, rest: Seq<RawDirEntry>)
    requires
        e.name@ != seq!['.'],
        e.name@ != seq!['.', '.'],
    ensures
        listed(seq![e] + rest) == seq![(e.name@, e.entry_type)] + listed(rest),
{
    assert((seq![e] + rest).drop_first() =~= rest);
}

/// A listing that is over has yielded, in order and once each, exactly the
/// raw entries read that are neither `.` nor `..`, with their names and kinds.
pub proof fn lemma_listing_is_raw_without_dots(rd: ReadDir)
    requires
        rd.wf(),
        rd.ended(),
    ensures
        rd.yielded_view() == listed(rd.read_view()),
{
    assert(rd.pending() =~= Seq::<RawDirEntry>::empty());
    assert(rd.yielded_view() + listed(rd.pending()) =~= rd.yielded_view());
}

/// The first entry left after passing over leading `.` and `..` entries is
/// neither `.` nor `..`: the iterator never yields them.
pub proof fn lemma_never_yields_dots(entries: Seq<RawDirEntry>)
    requires
        skip_dots(entries).len() > 0,
    ensures
        !is_dot_name(skip_dots(entries)[0].name@),
    decreases entries.len(),
{
    if entries.len() > 0 && is_dot_name(entries[0].name@) {
        lemma_never_yields_dots(entries.drop_first());
    }
}

/// Passing over `.` and `..` entries drops nothing else: what is left is a
/// suffix of the pending entries.
pub proof fn lemma_skip_dots_is_suffix(entries: Seq<RawDirEntry>)
    ensures
        skip_dots(entries).len() <= entries.len(),
        skip_dots(entries) == entries.subrange(entries.len() - skip_dots(entries).len(), entries.len() as int),
        forall|k: int| 0 <= k < entries.len() - skip_dots(entries).len() ==> #[trigger] is_dot_name(entries[k].name@),
    decreases entries.len(),
{
    if entries.len() > 0 && is_dot_name(entries[0].name@) {
        lemma_skip_dots_is_suffix(entries.drop_first());
        assert forall|k: int| 0 <= k < entries.len() - skip_dots(entries).len() implies #[trigger] is_dot_name(entries[k].name@) by {
            if k > 0 {
                assert(entries.drop_first()[k - 1] == entries[k]);
            }
        }
    } else {
        assert(entries == entries.subrange(0, entries.len() as int));
    }
}

} // verus!
