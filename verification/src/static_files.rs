//! The bundled static files a standalone server ships: each file is held
//! brotli-compressed together with its original size, looked up by name,
//! and served either compressed or inflated.

use vstd::prelude::*;

use crate::codec::copy_range;
use crate::text::str_eq;

verus! {

/// What a brotli stream inflates to, when it is well-formed.  The result
/// depends on the compressed bytes alone.
pub uninterp spec fn brotli_inflate(compressed: Seq<u8>) -> Option<Seq<u8>>;

/// Relies on brotli_decompressor::BrotliDecompress: it inflates the
/// whole stream into the output, and the outcome is a function of the
/// compressed bytes alone.
#[verifier::external_body]
fn brotli_decompress(data: &Vec<u8>) -> (r: Option<Vec<u8>>)
    ensures
        r is Some <==> brotli_inflate(data@) is Some,
        r is Some ==> Some((r->0)@) == brotli_inflate(data@),
{
    let mut out: Vec<u8> = Vec::new();
    let mut cursor = std::io::Cursor::new(data.as_slice());
    match brotli_decompressor::BrotliDecompress(&mut cursor, &mut out) {
        Ok(()) => Some(out),
        Err(_) => None,
    }
}

/// One bundled file: its name, its brotli-compressed contents, and its
/// uncompressed size in bytes.
#[derive(Debug)]
pub struct StaticFile {
    /// The name the file is served under.
    pub name: String,
    /// The brotli-compressed contents.
    pub compressed: Vec<u8>,
    /// The uncompressed size in bytes.
    pub size: u64,
}

/// The bundle of files a standalone server serves.
#[derive(Debug)]
pub struct StaticFiles {
    /// The bundled files, in bundle order.
    pub files: Vec<StaticFile>,
}

/// Whether some bundled file is served under `name`.
pub open spec fn spec_has_file(files: Seq<StaticFile>, name: Seq<char>) -> bool {
    exists|i: int| 0 <= i < files.len() && (#[trigger] files[i]).name@ == name
}

/// The index of the first bundled file served under `name`.
pub open spec fn spec_first_file(files: Seq<StaticFile>, name: Seq<char>) -> Option<int>
    decreases files.len(),
{
    if files.len() == 0 {
        None
    } else if files[0].name@ == name {
        Some(0int)
    } else {
        match spec_first_file(files.skip(1), name) {
            None => None,
            Some(i) => Some(i + 1),
        }
    }
}

/// The first index exists exactly when some entry matches, lies in
/// range, matches the name, and no earlier entry matches.
pub proof fn lemma_first_file_properties(files: Seq<StaticFile>, name: Seq<char>)
    ensures
        spec_first_file(files, name) is Some <==> spec_has_file(files, name),
        spec_first_file(files, name) is Some ==> {
            let i = spec_first_file(files, name)->0;
            &&& 0 <= i < files.len()
            &&& files[i].name@ == name
            &&& forall|j: int| 0 <= j < i ==> (#[trigger] files[j]).name@ != name
        },
    decreases files.len(),
{
    if files.len() > 0 {
        lemma_first_file_properties(files.skip(1), name);
        assert(forall|i: int|
            0 <= i < files.skip(1).len() ==> #[trigger] files.skip(1)[i] == files[i + 1]);
        if files[0].name@ != name && spec_first_file(files, name) is Some {
            let i = spec_first_file(files, name)->0;
            assert(i >= 1);
            assert(files.skip(1)[i - 1] == files[i]);
            assert forall|j: int| 0 <= j < i implies (#[trigger] files[j]).name@ != name by {
                if j >= 1 {
                    assert(files.skip(1)[j - 1] == files[j]);
                }
            }
        }
        if files[0].name@ != name {
            if spec_has_file(files, name) {
                let i = choose|i: int|
                    0 <= i < files.len() && (#[trigger] files[i]).name@ == name;
                assert(i >= 1);
                assert(files.skip(1)[i - 1].name@ == name);
            }
            if spec_has_file(files.skip(1), name) {
                let i = choose|i: int|
                    0 <= i < files.skip(1).len() && (#[trigger] files.skip(1)[i]).name@ == name;
                assert(files[i + 1].name@ == name);
            }
        }
    }
}

/// A scan that hits index `k` first pins the first index down.
pub proof fn lemma_first_file_of_scan(files: Seq<StaticFile>, name: Seq<char>, k: int)
    requires
        0 <= k < files.len(),
        files[k].name@ == name,
        forall|j: int| 0 <= j < k ==> (#[trigger] files[j]).name@ != name,
    ensures
        spec_first_file(files, name) == Some(k),
    decreases files.len(),
{
    if k > 0 {
        assert(forall|i: int|
            0 <= i < files.skip(1).len() ==> #[trigger] files.skip(1)[i] == files[i + 1]);
        lemma_first_file_of_scan(files.skip(1), name, k - 1);
    }
}

/// How one static file is served.
#[derive(Debug)]
pub enum StaticServe {
    /// The compressed bytes as they are, to be marked `content-encoding: br`.
    Brotli(Vec<u8>),
    /// The inflated bytes, with the uncompressed size for `content-length`.
    Plain(Vec<u8>, u64),
}

impl StaticFiles {
    /// A bundle over the given files.
    pub fn new(files: Vec<StaticFile>) -> (r: Self)
        ensures
            r.files@ == files@,
    {
        StaticFiles { files }
    }

    /// The index of the first file served under `name`.
    fn find(&self, name: &str) -> (r: Option<usize>)
        ensures
            match r {
                Some(i) => Some(i as int) == spec_first_file(self.files@, name@),
                None => !spec_has_file(self.files@, name@),
            },
            r is Some <==> spec_has_file(self.files@, name@),
    {
        let mut i: usize = 0;
        while i < self.files.len()
            invariant
                i <= self.files@.len(),
                forall|j: int| 0 <= j < i ==> (#[trigger] self.files@[j]).name@ != name@,
            decreases self.files@.len() - i,
        {
            if str_eq(self.files[i].name.as_str(), name) {
                proof {
                    lemma_first_file_of_scan(self.files@, name@, i as int);
                }
                return Some(i);
            }
            i = i + 1;
        }
        proof {
            if spec_has_file(self.files@, name@) {
                let w = choose|w: int|
                    0 <= w < self.files@.len() && (#[trigger] self.files@[w]).name@ == name@;
                assert(false);
            }
        }
        None
    }

    /// Whether a file is served under `name`.
    pub fn file_exists(&self, name: &str) -> (r: bool)
        ensures
            r == spec_has_file(self.files@, name@),
    {
        self.find(name).is_some()
    }

    /// The compressed form of the file served under `name`, as bundled:
    /// the first matching entry, verbatim.
    pub fn brotli_compressed_file(&self, name: &str) -> (r: Option<&StaticFile>)
        ensures
            match r {
                Some(f) => spec_first_file(self.files@, name@) is Some && *f == self.files@[
                    spec_first_file(self.files@, name@)->0
                ] && f.name@ == name@,
                None => !spec_has_file(self.files@, name@),
            },
            r is Some <==> spec_has_file(self.files@, name@),
    {
        proof {
            lemma_first_file_properties(self.files@, name@);
        }
        match self.find(name) {
            None => None,
            Some(i) => Some(&self.files[i]),
        }
    }

    /// The inflated contents of the file served under `name`: the bytes
    /// the first matching entry's brotli stream inflates to.  A missing
    /// file and a stream that does not inflate both yield nothing, and
    /// the contract keeps the two apart: on a corrupt stream the first
    /// index exists but the inflation does not.
    pub fn file(&self, name: &str) -> (r: Option<Vec<u8>>)
        ensures
            match r {
                Some(v) => spec_first_file(self.files@, name@) is Some && brotli_inflate(
                    self.files@[spec_first_file(self.files@, name@)->0].compressed@,
                ) == Some(v@),
                None => spec_first_file(self.files@, name@) is None || brotli_inflate(
                    self.files@[spec_first_file(self.files@, name@)->0].compressed@,
                ) is None,
            },
    {
        proof {
            lemma_first_file_properties(self.files@, name@);
        }
        match self.find(name) {
            None => None,
            Some(i) => brotli_decompress(&self.files[i].compressed),
        }
    }

    /// Decides how to serve the file under `name`: the first matching
    /// entry's compressed bytes as they are when the client accepts
    /// brotli, its inflated bytes with their size otherwise.  A present
    /// file is always served, unless the plain form is wanted and its
    /// stream does not inflate.
    pub fn serve(&self, name: &str, accepts_brotli: bool) -> (r: Option<StaticServe>)
        ensures
            match r {
                Some(StaticServe::Brotli(v)) => accepts_brotli && spec_first_file(
                    self.files@,
                    name@,
                ) is Some && v@ == self.files@[spec_first_file(self.files@, name@)->0].compressed@,
                Some(StaticServe::Plain(v, size)) => !accepts_brotli && spec_first_file(
                    self.files@,
                    name@,
                ) is Some && brotli_inflate(
                    self.files@[spec_first_file(self.files@, name@)->0].compressed@,
                ) == Some(v@) && size == self.files@[spec_first_file(self.files@, name@)->0].size,
                None => spec_first_file(self.files@, name@) is None || (!accepts_brotli
                    && brotli_inflate(
                    self.files@[spec_first_file(self.files@, name@)->0].compressed@,
                ) is None),
            },
    {
        proof {
            lemma_first_file_properties(self.files@, name@);
        }
        match self.find(name) {
            None => None,
            Some(i) => {
                if accepts_brotli {
                    let f = &self.files[i];
                    let data = copy_range(&f.compressed, 0, f.compressed.len());
                    proof {
                        assert(data@ =~= self.files@[i as int].compressed@);
                    }
                    Some(StaticServe::Brotli(data))
                } else {
                    match brotli_decompress(&self.files[i].compressed) {
                        None => None,
                        Some(v) => Some(StaticServe::Plain(v, self.files[i].size)),
                    }
                }
            },
        }
    }
}

} // verus!
