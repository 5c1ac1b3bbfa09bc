//! The editor service's generated face: its descriptor table and the
//! typed messages its two methods exchange.

use vstd::prelude::*;

use crate::codec::FieldRead;
use crate::codec::read_field;
use crate::codec::read_opt_nonempty;
use crate::codec::spec_len_field;
use crate::codec::spec_opt_field;
use crate::codec::spec_parse_field;
use crate::codec::spec_parse_opt_nonempty;
use crate::codec::write_len_field;
use crate::codec::write_opt_field;
use crate::codec::FieldParse;
use crate::codec::lemma_parse_of_field;
use crate::codec::lemma_field_of_parse;
use crate::codec::lemma_opt_nonempty_canonical;
use crate::codec::lemma_parse_opt_of_encoding;
use crate::descriptor::MethodDescriptor;
use crate::descriptor::ServiceDescriptor;
use vstd::string::StringExecFns;

verus! {

/// The table a server of the editor service routes against: the
/// schema-fetch method and the file-listing method, addressed by their
/// wire names.
pub fn semantic_editor_descriptor() -> (d: ServiceDescriptor)
    ensures
        d.name@ == "SemanticEditor"@,
        d.package@ == "se.service"@,
        d.proto_name@ == "SemanticEditor"@,
        d.methods@.len() == 2,
        d.methods@[0].name@ == "fetch_slate_schema"@,
        d.methods@[0].proto_name@ == "FetchSlateSchema"@,
        d.methods@[1].name@ == "list_files"@,
        d.methods@[1].proto_name@ == "ListFiles"@,
{
    let mut methods: Vec<MethodDescriptor> = Vec::new();
    methods.push(
        MethodDescriptor {
            name: String::from_str("fetch_slate_schema"),
            proto_name: String::from_str("FetchSlateSchema"),
            input_type: 1,
            output_type: 2,
        },
    );
    methods.push(
        MethodDescriptor {
            name: String::from_str("list_files"),
            proto_name: String::from_str("ListFiles"),
            input_type: 3,
            output_type: 4,
        },
    );
    ServiceDescriptor {
        name: String::from_str("SemanticEditor"),
        package: String::from_str("se.service"),
        proto_name: String::from_str("SemanticEditor"),
        methods,
    }
}

/// The input of the schema-fetch method.  It carries nothing.
#[derive(Clone, Copy, Debug, PartialEq, Eq, Structural)]
pub struct FetchSlateSchemaRequest;

/// The output of the schema-fetch method: the schema in its own encoded
/// form, carried opaquely.
#[derive(Clone, Debug)]
pub struct FetchSlateSchemaResponse {
    /// The encoded schema.
    pub schema: Vec<u8>,
}

/// The input of the file-listing method.
#[derive(Clone, Debug)]
pub struct ListFilesRequest {
    /// The directory whose entries are asked for.
    pub path: String,
}

/// What kind of directory entry a listed file is.
#[derive(Clone, Copy, Debug, PartialEq, Eq, Structural)]
pub enum FileKind {
    /// An ordinary file.
    Regular,
    /// A directory.
    Directory,
    /// A symbolic link.
    Link,
}

/// One listed directory entry.
#[derive(Clone, Debug)]
pub struct ListedFile {
    /// The entry's path.
    pub path: String,
    /// The entry's kind, when it is one this service names.
    pub kind: Option<FileKind>,
}

/// The output of the file-listing method.
#[derive(Debug)]
pub struct ListFilesResponse {
    /// The listed entries.
    pub file: Vec<ListedFile>,
}

/// The kind a directory entry reports: a directory before a regular file
/// before a link, and nothing for anything else.
pub fn to_kind(is_dir: bool, is_file: bool, is_symlink: bool) -> (r: Option<FileKind>)
    ensures
        r == (if is_dir {
            Some(FileKind::Directory)
        } else if is_file {
            Some(FileKind::Regular)
        } else if is_symlink {
            Some(FileKind::Link)
        } else {
            None::<FileKind>
        }),
{
    if is_dir {
        Some(FileKind::Directory)
    } else if is_file {
        Some(FileKind::Regular)
    } else if is_symlink {
        Some(FileKind::Link)
    } else {
        None
    }
}

/// The canonical payload of a `ListFilesRequest`: one optional string
/// field holding the path.
pub open spec fn spec_encode_list_files_request(path: Seq<char>) -> Seq<u8> {
    spec_opt_field(10, vstd::utf8::encode_utf8(path))
}

/// Encodes a `ListFilesRequest` into its canonical payload bytes.
pub fn encode_list_files_request(r: &ListFilesRequest) -> (out: Vec<u8>)
    ensures
        out@ == spec_encode_list_files_request(r.path@),
{
    let mut out: Vec<u8> = Vec::new();
    let path_bytes = r.path.as_str().as_bytes_vec();
    write_opt_field(&mut out, 10, &path_bytes);
    assert(out@ =~= spec_encode_list_files_request(r.path@));
    out
}

/// Decodes a `ListFilesRequest` from its canonical payload bytes:
/// the request whose encoding is exactly `s`, or nothing when no request
/// encodes to `s`.
pub fn decode_list_files_request(s: &Vec<u8>) -> (r: Option<ListFilesRequest>)
    ensures
        match r {
            Some(m) => spec_encode_list_files_request(m.path@) == s@,
            None => forall|p: Seq<char>| spec_encode_list_files_request(p) != s@,
        },
{
    proof {
        assert(s@.skip(0) =~= s@);
        assert forall|p: Seq<char>| spec_encode_list_files_request(p) == s@ implies ({
            &&& !(spec_parse_field(s@, 10) is Bad)
            &&& (spec_parse_field(s@, 10) is Got ==> {
                let payload = spec_parse_field(s@, 10)->Got_0;
                let c = spec_parse_field(s@, 10)->Got_1;
                payload == vstd::utf8::encode_utf8(p) && payload.len() >= 1 && c == s@.len()
            })
            &&& (spec_parse_field(s@, 10) is Absent ==> s@.len() == 0 && vstd::utf8::encode_utf8(
                p,
            ).len() == 0)
        }) by {
            let payload = vstd::utf8::encode_utf8(p);
            if payload.len() == 0 {
                assert(s@.len() == 0);
            } else {
                lemma_parse_of_field(10, payload, Seq::empty());
                assert(crate::codec::spec_len_field(10, payload) + Seq::<u8>::empty()
                    =~= crate::codec::spec_len_field(10, payload));
                assert(s@.len() == crate::codec::spec_len_field(10, payload).len());
            }
        }
    }
    match read_field(s, 0, 10) {
        FieldRead::Invalid => None,
        FieldRead::Missing => {
            if s.len() == 0 {
                let m = ListFilesRequest { path: String::new() };
                proof {
                    assert(vstd::utf8::encode_utf8(m.path@) =~= Seq::<u8>::empty());
                    assert(spec_encode_list_files_request(m.path@) =~= s@);
                }
                Some(m)
            } else {
                proof {
                    assert forall|p: Seq<char>| spec_encode_list_files_request(p) != s@ by {
                        if spec_encode_list_files_request(p) == s@ {
                            assert(s@[0] == 10);
                        }
                    }
                }
                None
            }
        },
        FieldRead::Value(payload, end) => {
            if payload.len() == 0 || end != s.len() {
                return None;
            }
            proof {
                lemma_field_of_parse(s@, 10);
            }
            match crate::codec::bytes_to_string(payload) {
                None => {
                    proof {
                        assert forall|p: Seq<char>| spec_encode_list_files_request(p) != s@ by {
                            if spec_encode_list_files_request(p) == s@ {
                                vstd::utf8::encode_utf8_valid_utf8(p);
                            }
                        }
                    }
                    None
                },
                Some(path) => {
                    let m = ListFilesRequest { path };
                    proof {
                        assert(spec_encode_list_files_request(m.path@) =~= s@);
                    }
                    Some(m)
                },
            }
        },
    }
}


/// The canonical bytes of an entry's kind: one empty nested message
/// under the matching tag, or nothing when the kind is not named.
pub open spec fn spec_encode_file_kind(kind: Option<FileKind>) -> Seq<u8> {
    match kind {
        None => Seq::<u8>::empty(),
        Some(FileKind::Regular) => spec_len_field(18, Seq::empty()),
        Some(FileKind::Directory) => spec_len_field(26, Seq::empty()),
        Some(FileKind::Link) => spec_len_field(34, Seq::empty()),
    }
}

/// The canonical bytes of one listed entry: its path and its kind.
pub open spec fn spec_encode_listed_file(path: Seq<char>, kind: Option<FileKind>) -> Seq<u8> {
    spec_opt_field(10, vstd::utf8::encode_utf8(path)) + spec_encode_file_kind(kind)
}

/// The canonical payload of a `ListFilesResponse`: one length-delimited
/// field per listed entry, in order.
pub open spec fn spec_encode_list_files_response(files: Seq<ListedFile>) -> Seq<u8>
    decreases files.len(),
{
    if files.len() == 0 {
        Seq::empty()
    } else {
        spec_len_field(10, spec_encode_listed_file(files[0].path@, files[0].kind))
            + spec_encode_list_files_response(files.skip(1))
    }
}

/// A listing encoding concatenates piecewise.
pub proof fn lemma_encode_listing_concat(a: Seq<ListedFile>, b: Seq<ListedFile>)
    ensures
        spec_encode_list_files_response(a + b) =~= spec_encode_list_files_response(a)
            + spec_encode_list_files_response(b),
    decreases a.len(),
{
    if a.len() == 0 {
        assert(a + b =~= b);
    } else {
        assert((a + b)[0] == a[0]);
        assert((a + b).skip(1) =~= a.skip(1) + b);
        lemma_encode_listing_concat(a.skip(1), b);
        let head = spec_len_field(10, spec_encode_listed_file(a[0].path@, a[0].kind));
        assert(head + (spec_encode_list_files_response(a.skip(1))
            + spec_encode_list_files_response(b)) =~= (head + spec_encode_list_files_response(
            a.skip(1),
        )) + spec_encode_list_files_response(b));
    }
}

/// Encodes one listed entry into its canonical bytes.
pub fn encode_listed_file(f: &ListedFile) -> (out: Vec<u8>)
    ensures
        out@ == spec_encode_listed_file(f.path@, f.kind),
{
    let mut out: Vec<u8> = Vec::new();
    let path_bytes = f.path.as_str().as_bytes_vec();
    write_opt_field(&mut out, 10, &path_bytes);
    let empty: Vec<u8> = Vec::new();
    match f.kind {
        None => {},
        Some(FileKind::Regular) => write_len_field(&mut out, 18, &empty),
        Some(FileKind::Directory) => write_len_field(&mut out, 26, &empty),
        Some(FileKind::Link) => write_len_field(&mut out, 34, &empty),
    }
    assert(out@ =~= spec_encode_listed_file(f.path@, f.kind));
    out
}

/// Encodes a `ListFilesResponse` into its canonical payload bytes.
pub fn encode_list_files_response(r: &ListFilesResponse) -> (out: Vec<u8>)
    ensures
        out@ == spec_encode_list_files_response(r.file@),
{
    let mut out: Vec<u8> = Vec::new();
    let mut i: usize = 0;
    while i < r.file.len()
        invariant
            i <= r.file@.len(),
            out@ == spec_encode_list_files_response(r.file@.take(i as int)),
        decreases r.file@.len() - i,
    {
        let entry_bytes = encode_listed_file(&r.file[i]);
        write_len_field(&mut out, 10, &entry_bytes);
        i = i + 1;
        proof {
            assert(r.file@.take(i as int) =~= r.file@.take(i - 1) + seq![r.file@[i - 1]]);
            lemma_encode_listing_concat(r.file@.take(i - 1), seq![r.file@[i - 1]]);
            assert(seq![r.file@[i - 1]].skip(1) =~= Seq::<ListedFile>::empty());
            assert(spec_encode_list_files_response(Seq::<ListedFile>::empty())
                == Seq::<u8>::empty());
            assert(spec_encode_list_files_response(seq![r.file@[i - 1]]) =~= spec_len_field(
                10,
                spec_encode_listed_file(r.file@[i - 1].path@, r.file@[i - 1].kind),
            ));
            assert(out@ =~= spec_encode_list_files_response(r.file@.take(i as int)));
        }
    }
    proof {
        assert(r.file@.take(r.file@.len() as int) =~= r.file@);
    }
    out
}

/// The raw parts of one listed entry: its path bytes and its kind.
pub open spec fn spec_parse_listed_file(s: Seq<u8>) -> Option<(Seq<u8>, Option<FileKind>)> {
    match spec_parse_opt_nonempty(s, 10) {
        None => None,
        Some((pb, c1)) => {
            let t = s.skip(c1);
            match spec_parse_field(t, 18) {
                FieldParse::Bad => None,
                FieldParse::Got(p, c2) => if p.len() == 0 && s.len() == c1 + c2 {
                    Some((pb, Some(FileKind::Regular)))
                } else {
                    None
                },
                FieldParse::Absent => match spec_parse_field(t, 26) {
                    FieldParse::Bad => None,
                    FieldParse::Got(p, c2) => if p.len() == 0 && s.len() == c1 + c2 {
                        Some((pb, Some(FileKind::Directory)))
                    } else {
                        None
                    },
                    FieldParse::Absent => match spec_parse_field(t, 34) {
                        FieldParse::Bad => None,
                        FieldParse::Got(p, c2) => if p.len() == 0 && s.len() == c1 + c2 {
                            Some((pb, Some(FileKind::Link)))
                        } else {
                            None
                        },
                        FieldParse::Absent => if s.len() == c1 {
                            Some((pb, None))
                        } else {
                            None
                        },
                    },
                },
            }
        },
    }
}

/// Parsing one listed entry undoes encoding it.
pub proof fn lemma_parse_of_encode_listed_file(path: Seq<char>, kind: Option<FileKind>)
    ensures
        spec_parse_listed_file(spec_encode_listed_file(path, kind)) == Some(
            (vstd::utf8::encode_utf8(path), kind),
        ),
{
    let s = spec_encode_listed_file(path, kind);
    let pb = vstd::utf8::encode_utf8(path);
    let f2 = spec_encode_file_kind(kind);
    assert(f2.len() == 0 || f2[0] != 10);
    lemma_parse_opt_of_encoding(10, pb, f2);
    assert(s.skip(spec_opt_field(10, pb).len() as int) =~= f2);
    match kind {
        None => {},
        Some(FileKind::Regular) => {
            lemma_parse_of_field(18, Seq::empty(), Seq::empty());
            assert(spec_len_field(18, Seq::<u8>::empty()) + Seq::<u8>::empty() =~= f2);
        },
        Some(FileKind::Directory) => {
            lemma_parse_of_field(26, Seq::empty(), Seq::empty());
            assert(spec_len_field(26, Seq::<u8>::empty()) + Seq::<u8>::empty() =~= f2);
            assert(f2[0] == 26);
        },
        Some(FileKind::Link) => {
            lemma_parse_of_field(34, Seq::empty(), Seq::empty());
            assert(spec_len_field(34, Seq::<u8>::empty()) + Seq::<u8>::empty() =~= f2);
            assert(f2[0] == 34);
        },
    }
}

/// A parsed listed entry pins its bytes down.
pub proof fn lemma_encode_of_parse_listed_file(s: Seq<u8>)
    requires
        spec_parse_listed_file(s) is Some,
    ensures
        ({
            let (pb, kind) = spec_parse_listed_file(s)->0;
            s =~= spec_opt_field(10, pb) + spec_encode_file_kind(kind)
        }),
{
    let (pb, kind) = spec_parse_listed_file(s)->0;
    let (pb0, c1) = spec_parse_opt_nonempty(s, 10)->0;
    lemma_opt_nonempty_canonical(s, 10);
    let t = s.skip(c1);
    match kind {
        None => {
            assert(s =~= s.take(c1) + t);
            assert(t =~= Seq::<u8>::empty());
        },
        Some(k) => {
            let tag: u8 = match k {
                FileKind::Regular => 18,
                FileKind::Directory => 26,
                FileKind::Link => 34,
            };
            lemma_field_of_parse(t, tag);
            let c2 = spec_parse_field(t, tag)->Got_1;
            assert(spec_len_field(tag, Seq::<u8>::empty()) =~= t.take(c2));
            assert(s =~= s.take(c1) + t.take(c2));
        },
    }
}

/// Decodes one listed entry from its canonical bytes.
fn decode_listed_file(s: &Vec<u8>) -> (r: Option<ListedFile>)
    ensures
        match r {
            Some(f) => spec_parse_listed_file(s@) == Some(
                (vstd::utf8::encode_utf8(f.path@), f.kind),
            ),
            None => spec_parse_listed_file(s@) is None || !vstd::utf8::valid_utf8(
                (spec_parse_listed_file(s@)->0).0,
            ),
        },
{
    proof {
        assert(s@.skip(0) =~= s@);
    }
    let (pb, p1) = match read_opt_nonempty(s, 0, 10) {
        None => {
            return None;
        },
        Some(x) => x,
    };
    let ghost pb_view = pb@;
    let path = match crate::codec::bytes_to_string(pb) {
        None => {
            return None;
        },
        Some(x) => x,
    };
    let (kind, p2) = match read_field(s, p1, 18) {
        FieldRead::Invalid => {
            return None;
        },
        FieldRead::Value(p, j) => {
            if p.len() != 0 {
                return None;
            }
            (Some(FileKind::Regular), j)
        },
        FieldRead::Missing => match read_field(s, p1, 26) {
            FieldRead::Invalid => {
                return None;
            },
            FieldRead::Value(p, j) => {
                if p.len() != 0 {
                    return None;
                }
                (Some(FileKind::Directory), j)
            },
            FieldRead::Missing => match read_field(s, p1, 34) {
                FieldRead::Invalid => {
                    return None;
                },
                FieldRead::Value(p, j) => {
                    if p.len() != 0 {
                        return None;
                    }
                    (Some(FileKind::Link), j)
                },
                FieldRead::Missing => (None, p1),
            },
        },
    };
    if p2 != s.len() {
        return None;
    }
    Some(ListedFile { path, kind })
}

/// The payloads of the run of entry fields at the front of `s`.
pub open spec fn spec_parse_entries(s: Seq<u8>) -> Option<(Seq<Seq<u8>>, int)>
    decreases s.len(),
    via spec_parse_entries_decreases
{
    match spec_parse_field(s, 10) {
        FieldParse::Absent => Some((Seq::empty(), 0int)),
        FieldParse::Bad => None,
        FieldParse::Got(p, c) => match spec_parse_entries(s.skip(c)) {
            None => None,
            Some((rest, c2)) => Some((seq![p] + rest, c + c2)),
        },
    }
}

#[via_fn]
proof fn spec_parse_entries_decreases(s: Seq<u8>) {
    match spec_parse_field(s, 10) {
        FieldParse::Absent => {},
        FieldParse::Bad => {},
        FieldParse::Got(p, c) => {
            lemma_field_of_parse(s, 10);
        },
    }
}

/// Parsing the entry run undoes encoding the listing, entry by entry.
pub proof fn lemma_parse_entries_of_encode(files: Seq<ListedFile>)
    ensures
        spec_parse_entries(spec_encode_list_files_response(files)) == Some(
            (
                files.map_values(
                    |f: ListedFile| spec_encode_listed_file(f.path@, f.kind),
                ),
                spec_encode_list_files_response(files).len() as int,
            ),
        ),
    decreases files.len(),
{
    let s = spec_encode_list_files_response(files);
    let mapped = files.map_values(|f: ListedFile| spec_encode_listed_file(f.path@, f.kind));
    if files.len() == 0 {
        assert(s.len() == 0);
        assert(mapped =~= Seq::<Seq<u8>>::empty());
    } else {
        let head = spec_encode_listed_file(files[0].path@, files[0].kind);
        let rest = spec_encode_list_files_response(files.skip(1));
        assert(s =~= spec_len_field(10, head) + rest);
        lemma_parse_of_field(10, head, rest);
        let c = spec_len_field(10, head).len() as int;
        assert(s.skip(c) =~= rest);
        lemma_parse_entries_of_encode(files.skip(1));
        assert(seq![head] + files.skip(1).map_values(
            |f: ListedFile| spec_encode_listed_file(f.path@, f.kind),
        ) =~= mapped);
    }
}

/// A parsed entry run pins the consumed bytes down.
pub proof fn lemma_entries_canonical(s: Seq<u8>)
    requires
        spec_parse_entries(s) is Some,
    ensures
        ({
            let (ps, c) = spec_parse_entries(s)->0;
            &&& 0 <= c <= s.len()
            &&& spec_encode_entry_payloads(ps) =~= s.take(c)
        }),
    decreases s.len(),
{
    let (ps, c) = spec_parse_entries(s)->0;
    match spec_parse_field(s, 10) {
        FieldParse::Absent => {
            assert(s.take(0) =~= Seq::<u8>::empty());
            assert(ps.len() == 0);
        },
        FieldParse::Bad => {},
        FieldParse::Got(p, c1) => {
            lemma_field_of_parse(s, 10);
            lemma_entries_canonical(s.skip(c1));
            let (rest, c2) = spec_parse_entries(s.skip(c1))->0;
            assert((seq![p] + rest).skip(1) =~= rest);
            assert((seq![p] + rest)[0] == p);
            assert(s.take(c) =~= s.take(c1) + s.skip(c1).take(c2));
        },
    }
}

/// The canonical bytes of raw entry payloads.
pub open spec fn spec_encode_entry_payloads(ps: Seq<Seq<u8>>) -> Seq<u8>
    decreases ps.len(),
{
    if ps.len() == 0 {
        Seq::empty()
    } else {
        spec_len_field(10, ps[0]) + spec_encode_entry_payloads(ps.skip(1))
    }
}

/// Reads the run of entry fields at position `i`, decoding each.
fn decode_entries(s: &Vec<u8>, i: usize) -> (r: Option<(Vec<ListedFile>, usize)>)
    requires
        i <= s@.len(),
    ensures
        r is Some ==> {
            &&& spec_parse_entries(s@.skip(i as int)) is Some
            &&& (r->0).0@.len() == (spec_parse_entries(s@.skip(i as int))->0).0.len()
            &&& forall|k: int|
                0 <= k < (spec_parse_entries(s@.skip(i as int))->0).0.len()
                    ==> spec_parse_listed_file(
                    #[trigger] (spec_parse_entries(s@.skip(i as int))->0).0[k],
                ) == Some(
                    (
                        vstd::utf8::encode_utf8((r->0).0@[k].path@),
                        (r->0).0@[k].kind,
                    ),
                )
            &&& (r->0).1 == i + (spec_parse_entries(s@.skip(i as int))->0).1
            &&& i <= (r->0).1 <= s@.len()
        },
        r is None ==> (spec_parse_entries(s@.skip(i as int)) is None || exists|k: int|
            0 <= k < (spec_parse_entries(s@.skip(i as int))->0).0.len() && (spec_parse_listed_file(
                #[trigger] (spec_parse_entries(s@.skip(i as int))->0).0[k],
            ) is None || !vstd::utf8::valid_utf8(
                (spec_parse_listed_file((spec_parse_entries(s@.skip(i as int))->0).0[k])->0).0,
            ))),
    decreases s@.len() - i,
{
    let ghost t = s@.skip(i as int);
    match read_field(s, i, 10) {
        FieldRead::Missing => Some((Vec::new(), i)),
        FieldRead::Invalid => None,
        FieldRead::Value(p, j) => {
            proof {
                lemma_field_of_parse(t, 10);
                assert(t.skip(j - i) =~= s@.skip(j as int));
            }
            let ghost ps_all = (spec_parse_entries(t)->0).0;
            let entry = match decode_listed_file(&p) {
                None => {
                    proof {
                        if spec_parse_entries(s@.skip(j as int)) is Some {
                            let (rest, c2) = spec_parse_entries(s@.skip(j as int))->0;
                            assert(ps_all == seq![p@] + rest);
                            assert(ps_all[0] == p@);
                        }
                    }
                    return None;
                },
                Some(f) => f,
            };
            match decode_entries(s, j) {
                None => {
                    proof {
                        let u = s@.skip(j as int);
                        if spec_parse_entries(u) is Some {
                            let (rest, c2) = spec_parse_entries(u)->0;
                            assert(ps_all == seq![p@] + rest);
                            let k0 = choose|k0: int|
                                0 <= k0 < rest.len() && (spec_parse_listed_file(
                                    #[trigger] rest[k0],
                                ) is None || !vstd::utf8::valid_utf8(
                                    (spec_parse_listed_file(rest[k0])->0).0,
                                ));
                            assert(ps_all[k0 + 1] == rest[k0]);
                        }
                    }
                    None
                },
                Some((rest_files, end)) => {
                    let mut out: Vec<ListedFile> = Vec::new();
                    out.push(entry);
                    let ghost entry_snapshot = out@[0];
                    let mut rest_files = rest_files;
                    let ghost rest_snapshot = rest_files@;
                    out.append(&mut rest_files);
                    proof {
                        let u = s@.skip(j as int);
                        let (rest, c2) = spec_parse_entries(u)->0;
                        assert(ps_all == seq![p@] + rest);
                        assert(out@ =~= seq![entry_snapshot] + rest_snapshot);
                        assert forall|k: int| 0 <= k < ps_all.len() implies spec_parse_listed_file(
                            #[trigger] ps_all[k],
                        ) == Some(
                            (
                                vstd::utf8::encode_utf8(out@[k].path@),
                                out@[k].kind,
                            ),
                        ) by {
                            if k == 0 {
                                assert(ps_all[0] == p@);
                                assert(out@[0] == entry_snapshot);
                            } else {
                                assert(ps_all[k] == rest[k - 1]);
                                assert(out@[k] == rest_snapshot[k - 1]);
                            }
                        }
                    }
                    Some((out, end))
                },
            }
        },
    }
}

/// Decodes a `ListFilesResponse` from its canonical payload bytes: the
/// listing whose encoding is exactly `s`, or nothing when no listing
/// encodes to `s`.
pub fn decode_list_files_response(s: &Vec<u8>) -> (r: Option<ListFilesResponse>)
    ensures
        match r {
            Some(m) => spec_encode_list_files_response(m.file@) == s@,
            None => forall|m: ListFilesResponse| spec_encode_list_files_response(m.file@) != s@,
        },
{
    proof {
        assert(s@.skip(0) =~= s@);
        assert forall|m: ListFilesResponse| spec_encode_list_files_response(m.file@) == s@
            implies (spec_parse_entries(s@) is Some && (spec_parse_entries(s@)->0).1 == s@.len()
            && (forall|k: int|
            0 <= k < (spec_parse_entries(s@)->0).0.len() ==> spec_parse_listed_file(
                #[trigger] (spec_parse_entries(s@)->0).0[k],
            ) is Some && vstd::utf8::valid_utf8(
                (spec_parse_listed_file((spec_parse_entries(s@)->0).0[k])->0).0,
            ))) by {
            lemma_parse_entries_of_encode(m.file@);
            let mapped = m.file@.map_values(
                |f: ListedFile| spec_encode_listed_file(f.path@, f.kind),
            );
            assert forall|k: int| 0 <= k < mapped.len() implies spec_parse_listed_file(
                #[trigger] mapped[k],
            ) is Some && vstd::utf8::valid_utf8(
                (spec_parse_listed_file(mapped[k])->0).0,
            ) by {
                lemma_parse_of_encode_listed_file(m.file@[k].path@, m.file@[k].kind);
                vstd::utf8::encode_utf8_valid_utf8(m.file@[k].path@);
            }
        }
    }
    match decode_entries(s, 0) {
        None => None,
        Some((file, end)) => {
            if end != s.len() {
                return None;
            }
            let m = ListFilesResponse { file };
            proof {
                lemma_entries_canonical(s@);
                let ps = (spec_parse_entries(s@)->0).0;
                let mapped = m.file@.map_values(
                    |f: ListedFile| spec_encode_listed_file(f.path@, f.kind),
                );
                assert forall|k: int| 0 <= k < ps.len() implies mapped[k] == #[trigger] ps[k] by {
                    lemma_encode_of_parse_listed_file(ps[k]);
                    assert(mapped[k] == spec_encode_listed_file(m.file@[k].path@, m.file@[k].kind));
                }
                assert(mapped =~= ps);
                lemma_payloads_of_files(m.file@);
                assert(spec_encode_list_files_response(m.file@) =~= s@);
            }
            Some(m)
        },
    }
}

/// A listing's encoding is the encoding of its entries' payloads.
pub proof fn lemma_payloads_of_files(files: Seq<ListedFile>)
    ensures
        spec_encode_list_files_response(files) =~= spec_encode_entry_payloads(
            files.map_values(|f: ListedFile| spec_encode_listed_file(f.path@, f.kind)),
        ),
    decreases files.len(),
{
    if files.len() > 0 {
        lemma_payloads_of_files(files.skip(1));
        let mapped = files.map_values(
            |f: ListedFile| spec_encode_listed_file(f.path@, f.kind),
        );
        assert(mapped.skip(1) =~= files.skip(1).map_values(
            |f: ListedFile| spec_encode_listed_file(f.path@, f.kind),
        ));
        assert(mapped[0] == spec_encode_listed_file(files[0].path@, files[0].kind));
    }
}

/// Encoding distinguishes distinct listing requests.
pub proof fn lemma_encode_list_files_request_injective(a: Seq<char>, b: Seq<char>)
    requires
        spec_encode_list_files_request(a) == spec_encode_list_files_request(b),
    ensures
        a == b,
{
    vstd::utf8::encode_utf8_decode_utf8(a);
    vstd::utf8::encode_utf8_decode_utf8(b);
    let ea = vstd::utf8::encode_utf8(a);
    let eb = vstd::utf8::encode_utf8(b);
    if ea.len() == 0 && eb.len() == 0 {
        assert(vstd::utf8::decode_utf8(ea) == vstd::utf8::decode_utf8(eb));
    } else if ea.len() >= 1 && eb.len() >= 1 {
        lemma_parse_of_field(10, ea, Seq::empty());
        lemma_parse_of_field(10, eb, Seq::empty());
        assert(crate::codec::spec_len_field(10, ea) + Seq::<u8>::empty()
            =~= crate::codec::spec_len_field(10, ea));
        assert(crate::codec::spec_len_field(10, eb) + Seq::<u8>::empty()
            =~= crate::codec::spec_len_field(10, eb));
        assert(ea == eb);
    } else {
        assert(spec_encode_list_files_request(a).len() == 0 || spec_encode_list_files_request(
            b,
        ).len() == 0);
        assert(spec_encode_list_files_request(a).len() >= 2 || spec_encode_list_files_request(
            b,
        ).len() >= 2);
    }
}

} // verus!
