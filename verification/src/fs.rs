//! The demo file store: a fixed set of named byte files, exposed to
//! tasks through the list and read services of the syscall layer. The
//! store has no transactional guarantees; it hands out bytes.

use vstd::prelude::*;

verus! {

/// Named read-only files, name `i` paired with contents `i`.
pub struct FileStore {
    names: Vec<Vec<u8>>,
    contents: Vec<Vec<u8>>,
}

/// The newline-separated listing of `names`, one trailing newline per
/// name.
pub open spec fn listing(names: Seq<Seq<u8>>) -> Seq<u8>
    decreases names.len(),
{
    if names.len() == 0 {
        Seq::empty()
    } else {
        listing(names.drop_last()) + names.last() + seq![10u8]
    }
}

/// Index of the first file named `name`, if any.
pub open spec fn find_file(names: Seq<Seq<u8>>, name: Seq<u8>) -> Option<int>
    decreases names.len(),
{
    if names.len() == 0 {
        None
    } else if names[0] == name {
        Some(0)
    } else {
        match find_file(names.drop_first(), name) {
            Some(i) => Some(i + 1),
            None => None,
        }
    }
}

impl FileStore {
    /// The file names, in listing order.
    pub closed spec fn spec_names(self) -> Seq<Seq<u8>> {
        self.names@.map_values(|v: Vec<u8>| v@)
    }

    /// The file contents, in the same order.
    pub closed spec fn spec_contents(self) -> Seq<Seq<u8>> {
        self.contents@.map_values(|v: Vec<u8>| v@)
    }

    /// Names and contents pair up, and each file is small enough for
    /// its length to come back through a signed syscall result.
    pub open spec fn wf(self) -> bool {
        &&& self.spec_names().len() == self.spec_contents().len()
        &&& forall|i: int|
            0 <= i < self.spec_contents().len() ==> (#[trigger] self.spec_contents()[i]).len()
                <= isize::MAX
    }

    /// An empty store.
    pub fn empty() -> (r: Self)
        ensures
            r.wf(),
            r.spec_names().len() == 0,
    {
        let r = Self { names: Vec::new(), contents: Vec::new() };
        proof {
            assert(r.spec_names() =~= Seq::<Seq<u8>>::empty());
            assert(r.spec_contents() =~= Seq::<Seq<u8>>::empty());
        }
        r
    }

    /// Add a file to the store.
    pub fn add_file(&mut self, name: Vec<u8>, data: Vec<u8>)
        requires
            old(self).wf(),
            data@.len() <= isize::MAX,
        ensures
            final(self).wf(),
            final(self).spec_names() == old(self).spec_names().push(name@),
            final(self).spec_contents() == old(self).spec_contents().push(data@),
    {
        let ghost gname = name@;
        let ghost gdata = data@;
        self.names.push(name);
        self.contents.push(data);
        proof {
            assert(self.spec_names() =~= old(self).spec_names().push(gname));
            assert(self.spec_contents() =~= old(self).spec_contents().push(gdata));
        }
    }

    /// How many files the store holds.
    pub fn file_count(&self) -> (r: usize)
        requires
            self.wf(),
        ensures
            r == self.spec_names().len(),
    {
        self.names.len()
    }
}

/// The demo store with its two fixed files.
pub fn fs_init() -> (r: FileStore)
    ensures
        r.wf(),
        r.spec_names().len() == 2,
        r.spec_names()[0] == seq![
            114u8, 101u8, 97u8, 100u8, 109u8, 101u8, 46u8, 116u8, 120u8, 116u8,
        ],
        r.spec_names()[1] == seq![104u8, 101u8, 108u8, 108u8, 111u8, 46u8, 116u8, 120u8, 116u8],
        r.spec_contents()[0] == seq![
            84u8, 104u8, 105u8, 115u8, 32u8, 105u8, 115u8, 32u8, 97u8, 32u8, 100u8, 101u8, 109u8, 111u8,
            32u8, 102u8, 105u8, 108u8, 101u8, 32u8, 115u8, 121u8, 115u8, 116u8, 101u8, 109u8, 46u8, 10u8,
        ],
        r.spec_contents()[1] == seq![
            72u8, 101u8, 108u8, 108u8, 111u8, 32u8, 102u8, 114u8, 111u8, 109u8, 32u8, 78u8, 101u8,
            120u8, 105u8, 115u8, 32u8, 70u8, 83u8, 32u8, 108u8, 97u8, 121u8, 101u8, 114u8, 33u8,
            10u8,
        ],
{
    let mut fs = FileStore::empty();
    let name0: Vec<u8> = vec![114u8, 101u8, 97u8, 100u8, 109u8, 101u8, 46u8, 116u8, 120u8, 116u8];
    let data0: Vec<u8> = vec![
        84u8, 104u8, 105u8, 115u8, 32u8, 105u8, 115u8, 32u8, 97u8, 32u8, 100u8, 101u8, 109u8, 111u8, 32u8,
        102u8, 105u8, 108u8, 101u8, 32u8, 115u8, 121u8, 115u8, 116u8, 101u8, 109u8, 46u8, 10u8,
    ];
    let name1: Vec<u8> = vec![104u8, 101u8, 108u8, 108u8, 111u8, 46u8, 116u8, 120u8, 116u8];
    let data1: Vec<u8> = vec![
        72u8, 101u8, 108u8, 108u8, 111u8, 32u8, 102u8, 114u8, 111u8, 109u8, 32u8, 78u8, 101u8,
        120u8, 105u8, 115u8, 32u8, 70u8, 83u8, 32u8, 108u8, 97u8, 121u8, 101u8, 114u8, 33u8, 10u8,
    ];
    fs.add_file(name0, data0);
    fs.add_file(name1, data1);
    fs
}

/// Whether the byte slices hold the same bytes.
fn bytes_eq(a: &[u8], b: &[u8]) -> (r: bool)
    ensures
        r == (a@ == b@),
{
    if a.len() != b.len() {
        return false;
    }
    let mut i: usize = 0;
    while i < a.len()
        invariant
            i <= a@.len(),
            a@.len() == b@.len(),
            forall|j: int| 0 <= j < i ==> a@[j] == b@[j],
        decreases a@.len() - i,
    {
        if a[i] != b[i] {
            return false;
        }
        i = i + 1;
    }
    proof {
        assert(a@ =~= b@);
    }
    true
}

/// The list service: the newline-separated names, cut to the caller's
/// buffer size. The result is exactly the listing's first
/// `min(out_buf_len, listing length)` bytes.
pub fn list_files_syscall(fs: &FileStore, out_buf_len: usize) -> (r: Vec<u8>)
    requires
        fs.wf(),
    ensures
        r@ == listing(fs.spec_names()).take(
            if out_buf_len <= listing(fs.spec_names()).len() {
                out_buf_len as int
            } else {
                listing(fs.spec_names()).len() as int
            },
        ),
        r@.len() <= out_buf_len,
{
    let mut out: Vec<u8> = Vec::new();
    let mut i: usize = 0;
    while i < fs.names.len()
        invariant
            i <= fs.spec_names().len(),
            out@ == listing(fs.spec_names().take(i as int)),
        decreases fs.spec_names().len() - i,
    {
        let name = &fs.names[i];
        let mut j: usize = 0;
        while j < name.len()
            invariant
                j <= name@.len(),
                name@ == fs.spec_names()[i as int],
                i < fs.spec_names().len(),
                out@ == listing(fs.spec_names().take(i as int)) + name@.take(j as int),
            decreases name@.len() - j,
        {
            out.push(name[j]);
            j = j + 1;
        }
        out.push(10u8);
        proof {
            lemma_listing_step(fs.spec_names(), i as int);
            assert(name@.take(name@.len() as int) =~= name@);
            assert(out@ =~= listing(fs.spec_names().take(i as int + 1)));
        }
        i = i + 1;
    }
    proof {
        assert(fs.spec_names().take(fs.spec_names().len() as int) =~= fs.spec_names());
    }
    let full_len = out.len();
    out.truncate(out_buf_len);
    proof {
        if out_buf_len >= full_len {
            assert(out@ =~= listing(fs.spec_names()).take(full_len as int));
        }
    }
    out
}

/// The read service: the contents of the file named by the given
/// bytes, or `None` when no file has that name.
pub fn read_file_syscall(fs: &FileStore, name: &[u8]) -> (r: Option<Vec<u8>>)
    requires
        fs.wf(),
    ensures
        match r {
            Some(data) => {
                &&& find_file(fs.spec_names(), name@) is Some
                &&& data@ == fs.spec_contents()[find_file(fs.spec_names(), name@)->0]
            },
            None => find_file(fs.spec_names(), name@) is None,
        },
{
    let mut i: usize = 0;
    while i < fs.names.len()
        invariant
            i <= fs.spec_names().len(),
            fs.wf(),
            forall|j: int| 0 <= j < i ==> (#[trigger] fs.spec_names()[j]) != name@,
        decreases fs.spec_names().len() - i,
    {
        if bytes_eq(fs.names[i].as_slice(), name) {
            let mut data: Vec<u8> = Vec::new();
            let src = &fs.contents[i];
            let mut j: usize = 0;
            while j < src.len()
                invariant
                    j <= src@.len(),
                    data@ == src@.take(j as int),
                decreases src@.len() - j,
            {
                data.push(src[j]);
                j = j + 1;
            }
            proof {
                assert(data@ =~= src@);
                lemma_find_file_hit(fs.spec_names(), name@, i as int);
            }
            return Some(data);
        }
        i = i + 1;
    }
    proof {
        lemma_find_file_none(fs.spec_names(), name@);
    }
    None
}

/// Unfolding the listing one name at a time, front first.
proof fn lemma_listing_step(names: Seq<Seq<u8>>, i: int)
    requires
        0 <= i < names.len(),
    ensures
        listing(names.take(i + 1)) == listing(names.take(i)) + names[i] + seq![10u8],
{
    assert(names.take(i + 1).drop_last() =~= names.take(i));
    assert(names.take(i + 1).last() == names[i]);
}

/// A name that matches at `i`, with no match before it, is the one
/// `find_file` finds.
proof fn lemma_find_file_hit(names: Seq<Seq<u8>>, name: Seq<u8>, i: int)
    requires
        0 <= i < names.len(),
        names[i] == name,
        forall|j: int| 0 <= j < i ==> (#[trigger] names[j]) != name,
    ensures
        find_file(names, name) == Some(i),
    decreases i,
{
    if i > 0 {
        assert(names[0] != name);
        lemma_find_file_hit(names.drop_first(), name, i - 1);
    }
}

/// A found file index lies in range and names the file asked for.
pub proof fn lemma_find_file_in_range(names: Seq<Seq<u8>>, name: Seq<u8>)
    ensures
        find_file(names, name) matches Some(i) ==> 0 <= i < names.len() && names[i] == name,
    decreases names.len(),
{
    if names.len() > 0 && names[0] != name {
        lemma_find_file_in_range(names.drop_first(), name);
    }
}

/// No match anywhere means `find_file` finds nothing.
proof fn lemma_find_file_none(names: Seq<Seq<u8>>, name: Seq<u8>)
    requires
        forall|j: int| 0 <= j < names.len() ==> (#[trigger] names[j]) != name,
    ensures
        find_file(names, name) is None,
    decreases names.len(),
{
    if names.len() > 0 {
        lemma_find_file_none(names.drop_first(), name);
    }
}

} // verus!
