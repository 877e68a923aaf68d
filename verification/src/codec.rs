//! The repository index snapshot format. The index is persisted as a single
//! binary snapshot, rewritten wholesale on dirty teardown and read wholesale
//! at construction; the format is the library's own (an opaque detail to
//! operators): little-endian 64-bit counts, strings as a count followed by
//! one little-endian 32-bit scalar per character, backends as a tag byte and
//! their text. Decoding an encoded index gives the index back, proved below.

use vstd::bytes::{
    lemma_auto_spec_u32_to_from_le_bytes, lemma_auto_spec_u64_to_from_le_bytes,
    spec_u32_from_le_bytes, spec_u32_to_le_bytes, spec_u64_from_le_bytes, spec_u64_to_le_bytes,
    u32_from_le_bytes, u32_to_le_bytes, u64_from_le_bytes, u64_to_le_bytes,
};
use vstd::prelude::*;
use vstd::slice::slice_subrange;
use vstd::string::*;
use vstd::utf8::{char_is_scalar, char_u32_cast, is_scalar};

use crate::backend::Backend;
use crate::name::{valid_name, NameString};
use crate::repository::{ProblemIndexEntry, RepositoryIndexEntry, RepositoryManager};
use crate::strutil::lex_lt;

verus! {

/// The abstract content of a backend: its kind (version-controlled or local
/// mirror) and its origin text.
pub type BackendModel = (bool, Seq<char>);

/// The abstract content of a cached problem: its name and relative path.
pub type ProblemModel = (Seq<char>, Seq<char>);

/// The abstract content of one registry entry: repository name, backend, and
/// problem list.
pub type EntryModel = (Seq<char>, BackendModel, Seq<ProblemModel>);

/// The abstract content of the whole index.
pub type IndexModel = Seq<EntryModel>;

/// The abstract content of a backend value.
pub open spec fn backend_model(b: Backend) -> BackendModel {
    match b {
        Backend::GitBackend(url) => (true, url@),
        Backend::LocalBackend(path) => (false, path@),
    }
}

/// The abstract content of a cached problem.
pub open spec fn prob_model(p: ProblemIndexEntry) -> ProblemModel {
    (p.name@, p.path@)
}

/// The abstract content of a problem list.
pub open spec fn probs_model(ps: Seq<ProblemIndexEntry>) -> Seq<ProblemModel> {
    Seq::new(ps.len(), |k: int| prob_model(ps[k]))
}

/// The abstract content of one registry entry.
pub open spec fn entry_model(e: (NameString, RepositoryIndexEntry)) -> EntryModel {
    (e.0@, backend_model(e.1.backend), probs_model(e.1.prob_list@))
}

/// The abstract content of the registry's index.
pub open spec fn index_model(entries: Seq<(NameString, RepositoryIndexEntry)>) -> IndexModel {
    Seq::new(entries.len(), |i: int| entry_model(entries[i]))
}

/// Every name in an index model satisfies the name grammar — true of every
/// model taken from real registry entries.
pub open spec fn index_model_names_valid(m: IndexModel) -> bool {
    &&& forall|i: int| 0 <= i < m.len() ==> valid_name((#[trigger] m[i]).0)
    &&& forall|i: int, k: int|
        0 <= i < m.len() && 0 <= k < m[i].2.len() ==> valid_name((#[trigger] m[i].2[k]).0)
}

/// The repository names of an index model ascend strictly in lexicographic
/// order — true of every model taken from a well-formed registry, and what
/// reading a snapshot back demands.
pub open spec fn index_model_sorted(m: IndexModel) -> bool {
    forall|i: int, j: int| 0 <= i < j < m.len() ==> lex_lt((#[trigger] m[i]).0, (#[trigger] m[j]).0)
}

/// Every count in an index model fits the 64-bit fields of the format —
/// true of every model taken from in-memory data.
pub open spec fn index_model_bounded(m: IndexModel) -> bool {
    &&& m.len() <= 0xffff_ffff_ffff_ffff
    &&& forall|i: int|
        0 <= i < m.len() ==> {
            &&& (#[trigger] m[i]).0.len() <= 0xffff_ffff_ffff_ffff
            &&& m[i].1.1.len() <= 0xffff_ffff_ffff_ffff
            &&& m[i].2.len() <= 0xffff_ffff_ffff_ffff
            &&& forall|k: int|
                0 <= k < m[i].2.len() ==> (#[trigger] m[i].2[k]).0.len()
                    <= 0xffff_ffff_ffff_ffff && m[i].2[k].1.len() <= 0xffff_ffff_ffff_ffff
        }
}

// ----- the encoding, as specification -----

/// A 64-bit count field.
pub open spec fn spec_enc_u64(n: u64) -> Seq<u8> {
    spec_u64_to_le_bytes(n)
}

/// The characters of a string, one 32-bit scalar each, in order.
pub open spec fn spec_enc_chars(s: Seq<char>) -> Seq<u8>
    decreases s.len(),
{
    if s.len() == 0 {
        Seq::empty()
    } else {
        spec_u32_to_le_bytes(s[0] as u32) + spec_enc_chars(s.drop_first())
    }
}

/// A string: its character count, then its characters.
pub open spec fn spec_enc_str(s: Seq<char>) -> Seq<u8> {
    spec_enc_u64(s.len() as u64) + spec_enc_chars(s)
}

/// A backend: a kind tag, then its origin text.
pub open spec fn spec_enc_backend(b: BackendModel) -> Seq<u8> {
    seq![if b.0 { 0u8 } else { 1u8 }] + spec_enc_str(b.1)
}

/// A cached problem: its name, then its relative path.
pub open spec fn spec_enc_prob(p: ProblemModel) -> Seq<u8> {
    spec_enc_str(p.0) + spec_enc_str(p.1)
}

/// A problem list, element after element.
pub open spec fn spec_enc_probs(ps: Seq<ProblemModel>) -> Seq<u8>
    decreases ps.len(),
{
    if ps.len() == 0 {
        Seq::empty()
    } else {
        spec_enc_prob(ps[0]) + spec_enc_probs(ps.drop_first())
    }
}

/// One registry entry: name, backend, problem count, problems.
pub open spec fn spec_enc_entry(e: EntryModel) -> Seq<u8> {
    spec_enc_str(e.0) + spec_enc_backend(e.1) + spec_enc_u64(e.2.len() as u64) + spec_enc_probs(e.2)
}

/// The entries, one after another.
pub open spec fn spec_enc_entries(m: IndexModel) -> Seq<u8>
    decreases m.len(),
{
    if m.len() == 0 {
        Seq::empty()
    } else {
        spec_enc_entry(m[0]) + spec_enc_entries(m.drop_first())
    }
}

/// The whole snapshot: the entry count, then the entries.
pub open spec fn spec_enc_index(m: IndexModel) -> Seq<u8> {
    spec_enc_u64(m.len() as u64) + spec_enc_entries(m)
}

/// Appending a character appends its four bytes.
proof fn lemma_enc_chars_snoc(s: Seq<char>, c: char)
    ensures
        spec_enc_chars(s.push(c)) == spec_enc_chars(s) + spec_u32_to_le_bytes(c as u32),
    decreases s.len(),
{
    if s.len() == 0 {
        assert(s.push(c)[0] == c);
        assert(s.push(c).drop_first() =~= Seq::<char>::empty());
        assert(s.push(c).len() == 1);
        assert(spec_enc_chars(s.push(c)) == spec_u32_to_le_bytes(c as u32) + spec_enc_chars(
            Seq::<char>::empty(),
        ));
        assert(spec_enc_chars(Seq::<char>::empty()) == Seq::<u8>::empty());
        assert(spec_enc_chars(s) == Seq::<u8>::empty());
        assert(spec_enc_chars(s.push(c)) =~= spec_enc_chars(s) + spec_u32_to_le_bytes(c as u32));
    } else {
        let head = spec_u32_to_le_bytes(s[0] as u32);
        let mid = spec_enc_chars(s.drop_first());
        let tail = spec_u32_to_le_bytes(c as u32);
        assert(s.push(c)[0] == s[0]);
        assert(s.push(c).drop_first() =~= s.drop_first().push(c));
        lemma_enc_chars_snoc(s.drop_first(), c);
        assert(spec_enc_chars(s.push(c)) == head + (mid + tail));
        assert(head + (mid + tail) =~= (head + mid) + tail);
    }
}

/// Appending a problem appends its encoding.
proof fn lemma_enc_probs_snoc(ps: Seq<ProblemModel>, p: ProblemModel)
    ensures
        spec_enc_probs(ps.push(p)) == spec_enc_probs(ps) + spec_enc_prob(p),
    decreases ps.len(),
{
    if ps.len() == 0 {
        assert(ps.push(p)[0] == p);
        assert(ps.push(p).drop_first() =~= Seq::<ProblemModel>::empty());
        assert(ps.push(p).len() == 1);
        assert(spec_enc_probs(ps.push(p)) == spec_enc_prob(p) + spec_enc_probs(
            Seq::<ProblemModel>::empty(),
        ));
        assert(spec_enc_probs(Seq::<ProblemModel>::empty()) == Seq::<u8>::empty());
        assert(spec_enc_probs(ps) == Seq::<u8>::empty());
        assert(spec_enc_probs(ps.push(p)) =~= spec_enc_probs(ps) + spec_enc_prob(p));
    } else {
        let head = spec_enc_prob(ps[0]);
        let mid = spec_enc_probs(ps.drop_first());
        let tail = spec_enc_prob(p);
        assert(ps.push(p)[0] == ps[0]);
        assert(ps.push(p).drop_first() =~= ps.drop_first().push(p));
        lemma_enc_probs_snoc(ps.drop_first(), p);
        assert(spec_enc_probs(ps.push(p)) == head + (mid + tail));
        assert(head + (mid + tail) =~= (head + mid) + tail);
    }
}

/// Appending an entry appends its encoding.
proof fn lemma_enc_entries_snoc(m: IndexModel, e: EntryModel)
    ensures
        spec_enc_entries(m.push(e)) == spec_enc_entries(m) + spec_enc_entry(e),
    decreases m.len(),
{
    if m.len() == 0 {
        assert(m.push(e)[0] == e);
        assert(m.push(e).drop_first() =~= Seq::<EntryModel>::empty());
        assert(m.push(e).len() == 1);
        assert(spec_enc_entries(m.push(e)) == spec_enc_entry(e) + spec_enc_entries(
            Seq::<EntryModel>::empty(),
        ));
        assert(spec_enc_entries(Seq::<EntryModel>::empty()) == Seq::<u8>::empty());
        assert(spec_enc_entries(m) == Seq::<u8>::empty());
        assert(spec_enc_entries(m.push(e)) =~= spec_enc_entries(m) + spec_enc_entry(e));
    } else {
        let head = spec_enc_entry(m[0]);
        let mid = spec_enc_entries(m.drop_first());
        let tail = spec_enc_entry(e);
        assert(m.push(e)[0] == m[0]);
        assert(m.push(e).drop_first() =~= m.drop_first().push(e));
        lemma_enc_entries_snoc(m.drop_first(), e);
        assert(spec_enc_entries(m.push(e)) == head + (mid + tail));
        assert(head + (mid + tail) =~= (head + mid) + tail);
    }
}

// ----- the encoder -----

/// Appends a count field.
fn enc_u64_into(out: &mut Vec<u8>, n: u64)
    ensures
        final(out)@ == old(out)@ + spec_enc_u64(n),
{
    let mut bytes = u64_to_le_bytes(n);
    out.append(&mut bytes);
}

/// Appends a string field.
fn enc_str_into(out: &mut Vec<u8>, s: &str)
    ensures
        final(out)@ == old(out)@ + spec_enc_str(s@),
{
    let len = s.unicode_len();
    enc_u64_into(out, len as u64);
    let ghost base = out@;
    let mut i: usize = 0;
    while i < len
        invariant
            0 <= i <= len,
            len == s@.len(),
            out@ == base + spec_enc_chars(s@.subrange(0, i as int)),
        decreases len - i,
    {
        let c = s.get_char(i);
        let mut bytes = u32_to_le_bytes(c as u32);
        proof {
            let pre = s@.subrange(0, i as int);
            assert(s@.subrange(0, i + 1) =~= pre.push(s@[i as int]));
            lemma_enc_chars_snoc(pre, s@[i as int]);
        }
        out.append(&mut bytes);
        i += 1;
    }
    proof {
        assert(s@.subrange(0, len as int) =~= s@);
        assert(old(out)@ + spec_enc_str(s@) =~= base + spec_enc_chars(s@));
    }
}

/// Appends a backend field.
fn enc_backend_into(out: &mut Vec<u8>, b: &Backend)
    ensures
        final(out)@ == old(out)@ + spec_enc_backend(backend_model(*b)),
{
    let ghost base = out@;
    match b {
        Backend::GitBackend(url) => {
            out.push(0u8);
            proof {
                assert(out@ =~= base + seq![0u8]);
            }
            enc_str_into(out, url.as_str());
        },
        Backend::LocalBackend(path) => {
            out.push(1u8);
            proof {
                assert(out@ =~= base + seq![1u8]);
            }
            enc_str_into(out, path.as_str());
        },
    }
    proof {
        assert(out@ =~= base + spec_enc_backend(backend_model(*b)));
    }
}

/// Appends one cached problem.
fn enc_prob_into(out: &mut Vec<u8>, p: &ProblemIndexEntry)
    ensures
        final(out)@ == old(out)@ + spec_enc_prob(prob_model(*p)),
{
    enc_str_into(out, p.name.as_str());
    enc_str_into(out, p.path.as_str());
    proof {
        assert(out@ =~= old(out)@ + spec_enc_prob(prob_model(*p)));
    }
}

/// Appends one registry entry.
fn enc_entry_into(out: &mut Vec<u8>, name: &NameString, entry: &RepositoryIndexEntry)
    ensures
        final(out)@ == old(out)@ + spec_enc_entry(
            (name@, backend_model(entry.backend), probs_model(entry.prob_list@)),
        ),
{
    enc_str_into(out, name.as_str());
    enc_backend_into(out, &entry.backend);
    let plen = entry.prob_list.len();
    enc_u64_into(out, plen as u64);
    let ghost base = out@;
    let ghost probs = probs_model(entry.prob_list@);
    let mut k: usize = 0;
    while k < plen
        invariant
            0 <= k <= plen,
            plen == entry.prob_list@.len(),
            probs == probs_model(entry.prob_list@),
            out@ == base + spec_enc_probs(probs.subrange(0, k as int)),
        decreases plen - k,
    {
        proof {
            let pre = probs.subrange(0, k as int);
            assert(probs.subrange(0, k + 1) =~= pre.push(probs[k as int]));
            lemma_enc_probs_snoc(pre, probs[k as int]);
            assert(probs[k as int] == prob_model(entry.prob_list@[k as int]));
        }
        enc_prob_into(out, &entry.prob_list[k]);
        k += 1;
    }
    proof {
        assert(probs.subrange(0, plen as int) =~= probs);
        assert(out@ =~= old(out)@ + spec_enc_entry(
            (name@, backend_model(entry.backend), probs_model(entry.prob_list@)),
        ));
    }
}

/// Encodes the whole index into one snapshot.
pub fn encode_index(entries: &Vec<(NameString, RepositoryIndexEntry)>) -> (r: Vec<u8>)
    ensures
        r@ == spec_enc_index(index_model(entries@)),
{
    let mut out: Vec<u8> = Vec::new();
    let n = entries.len();
    enc_u64_into(&mut out, n as u64);
    let ghost base = out@;
    let ghost m = index_model(entries@);
    let mut i: usize = 0;
    while i < n
        invariant
            0 <= i <= n,
            n == entries@.len(),
            m == index_model(entries@),
            out@ == base + spec_enc_entries(m.subrange(0, i as int)),
        decreases n - i,
    {
        proof {
            let pre = m.subrange(0, i as int);
            assert(m.subrange(0, i + 1) =~= pre.push(m[i as int]));
            lemma_enc_entries_snoc(pre, m[i as int]);
            assert(m[i as int] == entry_model(entries@[i as int]));
        }
        enc_entry_into(&mut out, &entries[i].0, &entries[i].1);
        i += 1;
    }
    proof {
        assert(m.subrange(0, n as int) =~= m);
        assert(out@ =~= spec_enc_index(m));
    }
    out
}

// ----- the decoding, as specification -----

/// Reads a count field.
pub open spec fn spec_dec_u64(b: Seq<u8>, pos: int) -> Option<(u64, int)> {
    if 0 <= pos && pos + 8 <= b.len() {
        Some((spec_u64_from_le_bytes(b.subrange(pos, pos + 8)), pos + 8))
    } else {
        None
    }
}

/// Reads one character: four bytes that must form a Unicode scalar.
pub open spec fn spec_dec_char(b: Seq<u8>, pos: int) -> Option<(char, int)> {
    if 0 <= pos && pos + 4 <= b.len() {
        let u = spec_u32_from_le_bytes(b.subrange(pos, pos + 4));
        if is_scalar(u) {
            Some((u as char, pos + 4))
        } else {
            None
        }
    } else {
        None
    }
}

/// Reads `count` characters.
pub open spec fn spec_dec_chars(b: Seq<u8>, pos: int, count: nat) -> Option<(Seq<char>, int)>
    decreases count,
{
    if count == 0 {
        Some((Seq::empty(), pos))
    } else {
        match spec_dec_char(b, pos) {
            Some((c, p1)) => match spec_dec_chars(b, p1, (count - 1) as nat) {
                Some((s, p2)) => Some((seq![c] + s, p2)),
                None => None,
            },
            None => None,
        }
    }
}

/// Reads a string field.
pub open spec fn spec_dec_str(b: Seq<u8>, pos: int) -> Option<(Seq<char>, int)> {
    match spec_dec_u64(b, pos) {
        Some((n, p1)) => spec_dec_chars(b, p1, n as nat),
        None => None,
    }
}

/// Reads a backend field.
pub open spec fn spec_dec_backend(b: Seq<u8>, pos: int) -> Option<(BackendModel, int)> {
    if 0 <= pos && pos + 1 <= b.len() {
        let tag = b[pos];
        if tag == 0u8 || tag == 1u8 {
            match spec_dec_str(b, pos + 1) {
                Some((s, p1)) => Some(((tag == 0u8, s), p1)),
                None => None,
            }
        } else {
            None
        }
    } else {
        None
    }
}

/// Reads one cached problem.
pub open spec fn spec_dec_prob(b: Seq<u8>, pos: int) -> Option<(ProblemModel, int)> {
    match spec_dec_str(b, pos) {
        Some((name, p1)) => match spec_dec_str(b, p1) {
            Some((path, p2)) => Some(((name, path), p2)),
            None => None,
        },
        None => None,
    }
}

/// Reads `count` cached problems.
pub open spec fn spec_dec_probs(b: Seq<u8>, pos: int, count: nat) -> Option<
    (Seq<ProblemModel>, int),
>
    decreases count,
{
    if count == 0 {
        Some((Seq::empty(), pos))
    } else {
        match spec_dec_prob(b, pos) {
            Some((p, p1)) => match spec_dec_probs(b, p1, (count - 1) as nat) {
                Some((ps, p2)) => Some((seq![p] + ps, p2)),
                None => None,
            },
            None => None,
        }
    }
}

/// Reads one registry entry.
pub open spec fn spec_dec_entry(b: Seq<u8>, pos: int) -> Option<(EntryModel, int)> {
    match spec_dec_str(b, pos) {
        Some((name, p1)) => match spec_dec_backend(b, p1) {
            Some((backend, p2)) => match spec_dec_u64(b, p2) {
                Some((n, p3)) => match spec_dec_probs(b, p3, n as nat) {
                    Some((ps, p4)) => Some(((name, backend, ps), p4)),
                    None => None,
                },
                None => None,
            },
            None => None,
        },
        None => None,
    }
}

/// Reads `count` registry entries.
pub open spec fn spec_dec_entries(b: Seq<u8>, pos: int, count: nat) -> Option<(IndexModel, int)>
    decreases count,
{
    if count == 0 {
        Some((Seq::empty(), pos))
    } else {
        match spec_dec_entry(b, pos) {
            Some((e, p1)) => match spec_dec_entries(b, p1, (count - 1) as nat) {
                Some((m, p2)) => Some((seq![e] + m, p2)),
                None => None,
            },
            None => None,
        }
    }
}

/// Reads a whole snapshot; it must be consumed exactly.
pub open spec fn spec_dec_index(b: Seq<u8>) -> Option<IndexModel> {
    match spec_dec_u64(b, 0) {
        Some((n, p1)) => match spec_dec_entries(b, p1, n as nat) {
            Some((m, p2)) => if p2 == b.len() {
                Some(m)
            } else {
                None
            },
            None => None,
        },
        None => None,
    }
}

// ----- decoding an encoding gives the value back -----

/// Each character takes four bytes.
proof fn lemma_enc_chars_len(s: Seq<char>)
    ensures
        spec_enc_chars(s).len() == 4 * s.len(),
    decreases s.len(),
{
    lemma_auto_spec_u32_to_from_le_bytes();
    if s.len() > 0 {
        lemma_enc_chars_len(s.drop_first());
    }
}

/// Reading a count field where one was written gives it back.
proof fn lemma_dec_u64_at(b: Seq<u8>, pos: int, n: u64)
    requires
        0 <= pos,
        pos + spec_enc_u64(n).len() <= b.len(),
        b.subrange(pos, pos + spec_enc_u64(n).len()) == spec_enc_u64(n),
    ensures
        spec_enc_u64(n).len() == 8,
        spec_dec_u64(b, pos) == Some((n, pos + 8)),
{
    lemma_auto_spec_u64_to_from_le_bytes();
}

/// Reading characters where a string's characters were written gives them
/// back.
proof fn lemma_dec_chars_at(b: Seq<u8>, pos: int, s: Seq<char>)
    requires
        0 <= pos,
        pos + spec_enc_chars(s).len() <= b.len(),
        b.subrange(pos, pos + spec_enc_chars(s).len()) == spec_enc_chars(s),
    ensures
        spec_dec_chars(b, pos, s.len()) == Some((s, pos + spec_enc_chars(s).len())),
    decreases s.len(),
{
    lemma_enc_chars_len(s);
    if s.len() == 0 {
        assert(spec_dec_chars(b, pos, 0) == Some((Seq::<char>::empty(), pos)));
        assert(s =~= Seq::<char>::empty());
    } else {
        lemma_auto_spec_u32_to_from_le_bytes();
        let head = spec_u32_to_le_bytes(s[0] as u32);
        let rest = s.drop_first();
        let enc = spec_enc_chars(s);
        lemma_enc_chars_len(rest);
        assert(enc == head + spec_enc_chars(rest));
        assert(b.subrange(pos, pos + 4) =~= enc.subrange(0, 4)) by {
            assert forall|t: int| 0 <= t < 4 implies b.subrange(pos, pos + 4)[t] == enc.subrange(
                0,
                4,
            )[t] by {
                assert(b.subrange(pos, pos + enc.len() as int)[t] == enc[t]);
            }
        }
        assert(enc.subrange(0, 4) =~= head);
        let u = spec_u32_from_le_bytes(b.subrange(pos, pos + 4));
        assert(u == s[0] as u32);
        char_is_scalar(s[0]);
        char_u32_cast(s[0], u);
        assert(spec_dec_char(b, pos) == Some((s[0], pos + 4)));
        assert(b.subrange(pos + 4, pos + 4 + spec_enc_chars(rest).len()) =~= spec_enc_chars(rest))
            by {
            assert forall|t: int| 0 <= t < spec_enc_chars(rest).len() implies b.subrange(
                pos + 4,
                pos + 4 + spec_enc_chars(rest).len(),
            )[t] == spec_enc_chars(rest)[t] by {
                assert(b.subrange(pos, pos + enc.len() as int)[4 + t] == enc[4 + t]);
                assert(enc[4 + t] == spec_enc_chars(rest)[t]);
            }
        }
        lemma_dec_chars_at(b, pos + 4, rest);
        assert(seq![s[0]] + rest =~= s);
    }
}

/// Reading a string field where one was written gives it back.
proof fn lemma_dec_str_at(b: Seq<u8>, pos: int, s: Seq<char>)
    requires
        0 <= pos,
        s.len() <= 0xffff_ffff_ffff_ffff,
        pos + spec_enc_str(s).len() <= b.len(),
        b.subrange(pos, pos + spec_enc_str(s).len()) == spec_enc_str(s),
    ensures
        spec_dec_str(b, pos) == Some((s, pos + spec_enc_str(s).len())),
{
    let n = s.len() as u64;
    let cnt = spec_enc_u64(n);
    let chars = spec_enc_chars(s);
    let enc = spec_enc_str(s);
    lemma_auto_spec_u64_to_from_le_bytes();
    lemma_enc_chars_len(s);
    assert(enc == cnt + chars);
    assert(b.subrange(pos, pos + 8) =~= cnt) by {
        assert forall|t: int| 0 <= t < 8 implies b.subrange(pos, pos + 8)[t] == cnt[t] by {
            assert(b.subrange(pos, pos + enc.len() as int)[t] == enc[t]);
        }
    }
    lemma_dec_u64_at(b, pos, n);
    assert(b.subrange(pos + 8, pos + 8 + chars.len() as int) =~= chars) by {
        assert forall|t: int| 0 <= t < chars.len() implies b.subrange(
            pos + 8,
            pos + 8 + chars.len() as int,
        )[t] == chars[t] by {
            assert(b.subrange(pos, pos + enc.len() as int)[8 + t] == enc[8 + t]);
        }
    }
    lemma_dec_chars_at(b, pos + 8, s);
    assert(n as nat == s.len());
}

/// Reading a backend field where one was written gives it back.
proof fn lemma_dec_backend_at(b: Seq<u8>, pos: int, bm: BackendModel)
    requires
        0 <= pos,
        bm.1.len() <= 0xffff_ffff_ffff_ffff,
        pos + spec_enc_backend(bm).len() <= b.len(),
        b.subrange(pos, pos + spec_enc_backend(bm).len()) == spec_enc_backend(bm),
    ensures
        spec_dec_backend(b, pos) == Some((bm, pos + spec_enc_backend(bm).len())),
{
    let tag: u8 = if bm.0 { 0u8 } else { 1u8 };
    let enc = spec_enc_backend(bm);
    let s = spec_enc_str(bm.1);
    assert(enc == seq![tag] + s);
    assert(b[pos] == tag) by {
        assert(b.subrange(pos, pos + enc.len() as int)[0] == enc[0]);
    }
    assert(b.subrange(pos + 1, pos + 1 + s.len() as int) =~= s) by {
        assert forall|t: int| 0 <= t < s.len() implies b.subrange(
            pos + 1,
            pos + 1 + s.len() as int,
        )[t] == s[t] by {
            assert(b.subrange(pos, pos + enc.len() as int)[1 + t] == enc[1 + t]);
        }
    }
    lemma_dec_str_at(b, pos + 1, bm.1);
    assert((tag == 0u8) == bm.0);
}

/// Reading a cached problem where one was written gives it back.
proof fn lemma_dec_prob_at(b: Seq<u8>, pos: int, p: ProblemModel)
    requires
        0 <= pos,
        p.0.len() <= 0xffff_ffff_ffff_ffff,
        p.1.len() <= 0xffff_ffff_ffff_ffff,
        pos + spec_enc_prob(p).len() <= b.len(),
        b.subrange(pos, pos + spec_enc_prob(p).len()) == spec_enc_prob(p),
    ensures
        spec_dec_prob(b, pos) == Some((p, pos + spec_enc_prob(p).len())),
{
    let s0 = spec_enc_str(p.0);
    let s1 = spec_enc_str(p.1);
    let enc = spec_enc_prob(p);
    assert(enc == s0 + s1);
    assert(b.subrange(pos, pos + s0.len() as int) =~= s0) by {
        assert forall|t: int| 0 <= t < s0.len() implies b.subrange(pos, pos + s0.len() as int)[t]
            == s0[t] by {
            assert(b.subrange(pos, pos + enc.len() as int)[t] == enc[t]);
        }
    }
    lemma_dec_str_at(b, pos, p.0);
    assert(b.subrange(pos + s0.len(), pos + s0.len() + s1.len()) =~= s1) by {
        assert forall|t: int| 0 <= t < s1.len() implies b.subrange(
            pos + s0.len(),
            pos + s0.len() + s1.len(),
        )[t] == s1[t] by {
            assert(b.subrange(pos, pos + enc.len() as int)[s0.len() + t] == enc[s0.len() + t]);
        }
    }
    lemma_dec_str_at(b, pos + s0.len(), p.1);
    assert((p.0, p.1) == p);
}

/// Reading problems where a list was written gives the list back.
proof fn lemma_dec_probs_at(b: Seq<u8>, pos: int, ps: Seq<ProblemModel>)
    requires
        0 <= pos,
        forall|k: int|
            0 <= k < ps.len() ==> (#[trigger] ps[k]).0.len() <= 0xffff_ffff_ffff_ffff
                && ps[k].1.len() <= 0xffff_ffff_ffff_ffff,
        pos + spec_enc_probs(ps).len() <= b.len(),
        b.subrange(pos, pos + spec_enc_probs(ps).len()) == spec_enc_probs(ps),
    ensures
        spec_dec_probs(b, pos, ps.len()) == Some((ps, pos + spec_enc_probs(ps).len())),
    decreases ps.len(),
{
    if ps.len() == 0 {
        assert(ps =~= Seq::<ProblemModel>::empty());
    } else {
        let head = spec_enc_prob(ps[0]);
        let rest = ps.drop_first();
        let enc = spec_enc_probs(ps);
        assert(enc == head + spec_enc_probs(rest));
        assert(b.subrange(pos, pos + head.len() as int) =~= head) by {
            assert forall|t: int| 0 <= t < head.len() implies b.subrange(
                pos,
                pos + head.len() as int,
            )[t] == head[t] by {
                assert(b.subrange(pos, pos + enc.len() as int)[t] == enc[t]);
            }
        }
        lemma_dec_prob_at(b, pos, ps[0]);
        assert(b.subrange(pos + head.len(), pos + head.len() + spec_enc_probs(rest).len()) =~= spec_enc_probs(rest)) by {
            assert forall|t: int| 0 <= t < spec_enc_probs(rest).len() implies b.subrange(
                pos + head.len(),
                pos + head.len() + spec_enc_probs(rest).len(),
            )[t] == spec_enc_probs(rest)[t] by {
                assert(b.subrange(pos, pos + enc.len() as int)[head.len() + t] == enc[head.len()
                    + t]);
            }
        }
        assert forall|k: int| 0 <= k < rest.len() implies (#[trigger] rest[k]).0.len()
            <= 0xffff_ffff_ffff_ffff && rest[k].1.len() <= 0xffff_ffff_ffff_ffff by {
            assert(rest[k] == ps[k + 1]);
            assert(ps[k + 1].0.len() <= 0xffff_ffff_ffff_ffff && ps[k + 1].1.len()
                <= 0xffff_ffff_ffff_ffff);
        }
        lemma_dec_probs_at(b, pos + head.len(), rest);
        assert(seq![ps[0]] + rest =~= ps);
    }
}

/// Reading one registry entry where one was written gives it back.
proof fn lemma_dec_entry_at(b: Seq<u8>, pos: int, e: EntryModel)
    requires
        0 <= pos,
        e.0.len() <= 0xffff_ffff_ffff_ffff,
        e.1.1.len() <= 0xffff_ffff_ffff_ffff,
        e.2.len() <= 0xffff_ffff_ffff_ffff,
        forall|k: int|
            0 <= k < e.2.len() ==> (#[trigger] e.2[k]).0.len() <= 0xffff_ffff_ffff_ffff
                && e.2[k].1.len() <= 0xffff_ffff_ffff_ffff,
        pos + spec_enc_entry(e).len() <= b.len(),
        b.subrange(pos, pos + spec_enc_entry(e).len()) == spec_enc_entry(e),
    ensures
        spec_dec_entry(b, pos) == Some((e, pos + spec_enc_entry(e).len())),
{
    let s0 = spec_enc_str(e.0);
    let s1 = spec_enc_backend(e.1);
    let s2 = spec_enc_u64(e.2.len() as u64);
    let s3 = spec_enc_probs(e.2);
    let enc = spec_enc_entry(e);
    lemma_auto_spec_u64_to_from_le_bytes();
    assert(enc == s0 + s1 + s2 + s3);
    assert forall|t: int| 0 <= t < enc.len() implies b.subrange(pos, pos + enc.len() as int)[t]
        == enc[t] by {}
    assert(b.subrange(pos, pos + s0.len() as int) =~= s0) by {
        assert forall|t: int| 0 <= t < s0.len() implies b.subrange(pos, pos + s0.len() as int)[t]
            == s0[t] by {
            assert(b.subrange(pos, pos + enc.len() as int)[t] == enc[t]);
            assert(enc[t] == s0[t]);
        }
    }
    lemma_dec_str_at(b, pos, e.0);
    let p1 = pos + s0.len();
    assert(b.subrange(p1, p1 + s1.len() as int) =~= s1) by {
        assert forall|t: int| 0 <= t < s1.len() implies b.subrange(p1, p1 + s1.len() as int)[t]
            == s1[t] by {
            assert(b.subrange(pos, pos + enc.len() as int)[s0.len() + t] == enc[s0.len() + t]);
            assert(enc[s0.len() + t] == s1[t]);
        }
    }
    lemma_dec_backend_at(b, p1, e.1);
    let p2 = p1 + s1.len();
    assert(b.subrange(p2, p2 + 8) =~= s2) by {
        assert forall|t: int| 0 <= t < 8 implies b.subrange(p2, p2 + 8)[t] == s2[t] by {
            assert(b.subrange(pos, pos + enc.len() as int)[s0.len() + s1.len() + t] == enc[s0.len()
                + s1.len() + t]);
            assert(enc[s0.len() + s1.len() + t] == s2[t]);
        }
    }
    lemma_dec_u64_at(b, p2, e.2.len() as u64);
    let p3 = p2 + 8;
    assert(b.subrange(p3, p3 + s3.len() as int) =~= s3) by {
        assert forall|t: int| 0 <= t < s3.len() implies b.subrange(p3, p3 + s3.len() as int)[t]
            == s3[t] by {
            assert(b.subrange(pos, pos + enc.len() as int)[s0.len() + s1.len() + 8 + t]
                == enc[s0.len() + s1.len() + 8 + t]);
            assert(enc[s0.len() + s1.len() + 8 + t] == s3[t]);
        }
    }
    lemma_dec_probs_at(b, p3, e.2);
    assert((e.0, e.1, e.2) == e);
}

/// Reading entries where the list was written gives the list back.
proof fn lemma_dec_entries_at(b: Seq<u8>, pos: int, m: IndexModel)
    requires
        0 <= pos,
        index_model_bounded(m),
        pos + spec_enc_entries(m).len() <= b.len(),
        b.subrange(pos, pos + spec_enc_entries(m).len()) == spec_enc_entries(m),
    ensures
        spec_dec_entries(b, pos, m.len()) == Some((m, pos + spec_enc_entries(m).len())),
    decreases m.len(),
{
    if m.len() == 0 {
        assert(m =~= Seq::<EntryModel>::empty());
    } else {
        let head = spec_enc_entry(m[0]);
        let rest = m.drop_first();
        let enc = spec_enc_entries(m);
        assert(enc == head + spec_enc_entries(rest));
        assert(b.subrange(pos, pos + head.len() as int) =~= head) by {
            assert forall|t: int| 0 <= t < head.len() implies b.subrange(
                pos,
                pos + head.len() as int,
            )[t] == head[t] by {
                assert(b.subrange(pos, pos + enc.len() as int)[t] == enc[t]);
            }
        }
        lemma_dec_entry_at(b, pos, m[0]);
        assert(b.subrange(pos + head.len(), pos + head.len() + spec_enc_entries(rest).len())
            =~= spec_enc_entries(rest)) by {
            assert forall|t: int| 0 <= t < spec_enc_entries(rest).len() implies b.subrange(
                pos + head.len(),
                pos + head.len() + spec_enc_entries(rest).len(),
            )[t] == spec_enc_entries(rest)[t] by {
                assert(b.subrange(pos, pos + enc.len() as int)[head.len() + t] == enc[head.len()
                    + t]);
            }
        }
        assert(index_model_bounded(rest)) by {
            assert forall|i: int| 0 <= i < rest.len() implies {
                &&& (#[trigger] rest[i]).0.len() <= 0xffff_ffff_ffff_ffff
                &&& rest[i].1.1.len() <= 0xffff_ffff_ffff_ffff
                &&& rest[i].2.len() <= 0xffff_ffff_ffff_ffff
                &&& forall|k: int|
                    0 <= k < rest[i].2.len() ==> (#[trigger] rest[i].2[k]).0.len()
                        <= 0xffff_ffff_ffff_ffff && rest[i].2[k].1.len() <= 0xffff_ffff_ffff_ffff
            } by {
                assert(rest[i] == m[i + 1]);
                assert((#[trigger] m[i + 1]).0.len() <= 0xffff_ffff_ffff_ffff
                    && m[i + 1].1.1.len() <= 0xffff_ffff_ffff_ffff && m[i + 1].2.len()
                    <= 0xffff_ffff_ffff_ffff);
                assert forall|k: int| 0 <= k < rest[i].2.len() implies (#[trigger] rest[i].2[k]).0.len()
                    <= 0xffff_ffff_ffff_ffff && rest[i].2[k].1.len() <= 0xffff_ffff_ffff_ffff by {
                    assert((#[trigger] m[i + 1].2[k]).0.len() <= 0xffff_ffff_ffff_ffff
                        && m[i + 1].2[k].1.len() <= 0xffff_ffff_ffff_ffff);
                }
            }
        }
        lemma_dec_entries_at(b, pos + head.len(), rest);
        assert(seq![m[0]] + rest =~= m);
    }
}

/// Round trip: decoding an encoded index snapshot yields the index it was
/// made from — the persisted registry holds exactly the same set of
/// (name, backend, problem list) records after writing and reading.
pub proof fn lemma_index_round_trip(m: IndexModel)
    requires
        index_model_bounded(m),
    ensures
        spec_dec_index(spec_enc_index(m)) == Some(m),
{
    let b = spec_enc_index(m);
    let cnt = spec_enc_u64(m.len() as u64);
    let body = spec_enc_entries(m);
    lemma_auto_spec_u64_to_from_le_bytes();
    assert(b == cnt + body);
    assert(b.subrange(0, 8) =~= cnt);
    lemma_dec_u64_at(b, 0, m.len() as u64);
    assert(b.subrange(8, 8 + body.len() as int) =~= body);
    lemma_dec_entries_at(b, 8, m);
}

// ----- the decoder -----

/// Relies on `char::from_u32`: `Some` exactly for Unicode scalar values
/// (not a surrogate, at most `0x10FFFF`), holding the character with that
/// code point.
#[verifier::external_body]
fn char_from_u32(u: u32) -> (r: Option<char>)
    ensures
        match r {
            Some(c) => is_scalar(u) && c == u as char,
            None => !is_scalar(u),
        },
{
    char::from_u32(u)
}

/// Relies on `String::push`: appends the given character to the end of the
/// string.
#[verifier::external_body]
fn char_push(s: &mut String, c: char)
    ensures
        final(s)@ == old(s)@ + seq![c],
{
    s.push(c);
}

/// Reads a count field.
fn dec_u64(bytes: &Vec<u8>, pos: usize) -> (r: Option<(u64, usize)>)
    ensures
        match r {
            Some(t) => spec_dec_u64(bytes@, pos as int) == Some((t.0, t.1 as int)),
            None => spec_dec_u64(bytes@, pos as int) is None,
        },
{
    if bytes.len() >= 8 && pos <= bytes.len() - 8 {
        let sl = slice_subrange(bytes.as_slice(), pos, pos + 8);
        Some((u64_from_le_bytes(sl), pos + 8))
    } else {
        None
    }
}

/// Reads one character.
fn dec_char(bytes: &Vec<u8>, pos: usize) -> (r: Option<(char, usize)>)
    ensures
        match r {
            Some(t) => spec_dec_char(bytes@, pos as int) == Some((t.0, t.1 as int)),
            None => spec_dec_char(bytes@, pos as int) is None,
        },
{
    if bytes.len() >= 4 && pos <= bytes.len() - 4 {
        let sl = slice_subrange(bytes.as_slice(), pos, pos + 4);
        let u = u32_from_le_bytes(sl);
        match char_from_u32(u) {
            Some(c) => Some((c, pos + 4)),
            None => None,
        }
    } else {
        None
    }
}

/// `o` with a prefix prepended to a decoded character sequence.
pub open spec fn opt_prepend_chars(prefix: Seq<char>, o: Option<(Seq<char>, int)>) -> Option<
    (Seq<char>, int),
> {
    match o {
        Some(t) => Some((prefix + t.0, t.1)),
        None => None,
    }
}

/// Reads a string field.
fn dec_string(bytes: &Vec<u8>, pos: usize) -> (r: Option<(String, usize)>)
    ensures
        match r {
            Some(t) => spec_dec_str(bytes@, pos as int) == Some((t.0@, t.1 as int)),
            None => spec_dec_str(bytes@, pos as int) is None,
        },
{
    let (n, p0) = match dec_u64(bytes, pos) {
        Some(t) => t,
        None => {
            return None;
        },
    };
    let mut out = String::new();
    let mut p: usize = p0;
    let mut i: u64 = 0;
    proof {
        assert(spec_dec_str(bytes@, pos as int) == opt_prepend_chars(
            out@,
            spec_dec_chars(bytes@, p as int, (n - i) as nat),
        )) by {
            match spec_dec_chars(bytes@, p as int, (n - i) as nat) {
                Some(t) => {
                    assert(out@ + t.0 =~= t.0);
                },
                None => {},
            }
        }
    }
    while i < n
        invariant
            0 <= i <= n,
            spec_dec_str(bytes@, pos as int) == opt_prepend_chars(
                out@,
                spec_dec_chars(bytes@, p as int, (n - i) as nat),
            ),
        decreases n - i,
    {
        let ghost pre = out@;
        match dec_char(bytes, p) {
            Some((c, p2)) => {
                char_push(&mut out, c);
                proof {
                    let rest = spec_dec_chars(bytes@, p2 as int, (n - i - 1) as nat);
                    assert(spec_dec_chars(bytes@, p as int, (n - i) as nat)
                        == opt_prepend_chars(seq![c], rest));
                    match rest {
                        Some(t) => {
                            assert(pre + (seq![c] + t.0) =~= (pre + seq![c]) + t.0);
                        },
                        None => {},
                    }
                }
                p = p2;
            },
            None => {
                proof {
                    assert(spec_dec_chars(bytes@, p as int, (n - i) as nat) is None);
                }
                return None;
            },
        }
        i += 1;
    }
    proof {
        assert(spec_dec_chars(bytes@, p as int, 0) == Some((Seq::<char>::empty(), p as int)));
        assert(out@ + Seq::<char>::empty() =~= out@);
    }
    Some((out, p))
}

/// Reads a backend field.
fn dec_backend(bytes: &Vec<u8>, pos: usize) -> (r: Option<(Backend, usize)>)
    ensures
        match r {
            Some(t) => spec_dec_backend(bytes@, pos as int) == Some((backend_model(t.0), t.1 as int)),
            None => spec_dec_backend(bytes@, pos as int) is None,
        },
{
    if pos >= bytes.len() {
        return None;
    }
    let tag = bytes[pos];
    if tag != 0u8 && tag != 1u8 {
        return None;
    }
    match dec_string(bytes, pos + 1) {
        Some((s, p1)) => {
            if tag == 0u8 {
                Some((Backend::GitBackend(s), p1))
            } else {
                Some((Backend::LocalBackend(s), p1))
            }
        },
        None => None,
    }
}

/// Whether every name of a decoded problem list passes the grammar.
pub open spec fn probs_names_valid(ps: Seq<ProblemModel>) -> bool {
    forall|k: int| 0 <= k < ps.len() ==> valid_name((#[trigger] ps[k]).0)
}

/// Reads one cached problem; a name outside the grammar is refused.
fn dec_prob(bytes: &Vec<u8>, pos: usize) -> (r: Option<(ProblemIndexEntry, usize)>)
    ensures
        match r {
            Some(t) => spec_dec_prob(bytes@, pos as int) == Some((prob_model(t.0), t.1 as int)),
            None => spec_dec_prob(bytes@, pos as int) is None || !valid_name(
                spec_dec_prob(bytes@, pos as int)->Some_0.0.0,
            ),
        },
{
    let (name_str, p1) = match dec_string(bytes, pos) {
        Some(t) => t,
        None => {
            return None;
        },
    };
    let (path, p2) = match dec_string(bytes, p1) {
        Some(t) => t,
        None => {
            return None;
        },
    };
    let name = match NameString::try_from_string(name_str) {
        Ok(n) => n,
        Err(_) => {
            return None;
        },
    };
    Some((ProblemIndexEntry { name, path }, p2))
}

/// `o` with a prefix prepended to a decoded problem list.
pub open spec fn opt_prepend_probs(prefix: Seq<ProblemModel>, o: Option<(Seq<ProblemModel>, int)>)
    -> Option<(Seq<ProblemModel>, int)> {
    match o {
        Some(t) => Some((prefix + t.0, t.1)),
        None => None,
    }
}

/// Reads `n` cached problems.
fn dec_probs(bytes: &Vec<u8>, pos: usize, n: u64) -> (r: Option<(Vec<ProblemIndexEntry>, usize)>)
    ensures
        match r {
            Some(t) => spec_dec_probs(bytes@, pos as int, n as nat) == Some(
                (probs_model(t.0@), t.1 as int),
            ),
            None => spec_dec_probs(bytes@, pos as int, n as nat) is None || !probs_names_valid(
                spec_dec_probs(bytes@, pos as int, n as nat)->Some_0.0,
            ),
        },
{
    let mut out: Vec<ProblemIndexEntry> = Vec::new();
    let mut p: usize = pos;
    let mut i: u64 = 0;
    proof {
        assert(probs_model(out@) =~= Seq::<ProblemModel>::empty());
        assert(spec_dec_probs(bytes@, pos as int, n as nat) == opt_prepend_probs(
            probs_model(out@),
            spec_dec_probs(bytes@, p as int, (n - i) as nat),
        )) by {
            match spec_dec_probs(bytes@, p as int, (n - i) as nat) {
                Some(t) => {
                    assert(probs_model(out@) + t.0 =~= t.0);
                },
                None => {},
            }
        }
    }
    while i < n
        invariant
            0 <= i <= n,
            spec_dec_probs(bytes@, pos as int, n as nat) == opt_prepend_probs(
                probs_model(out@),
                spec_dec_probs(bytes@, p as int, (n - i) as nat),
            ),
        decreases n - i,
    {
        let ghost pre = probs_model(out@);
        match dec_prob(bytes, p) {
            Some((entry, p2)) => {
                proof {
                    let rest = spec_dec_probs(bytes@, p2 as int, (n - i - 1) as nat);
                    assert(spec_dec_probs(bytes@, p as int, (n - i) as nat) == opt_prepend_probs(
                        seq![prob_model(entry)],
                        rest,
                    ));
                    match rest {
                        Some(t) => {
                            assert(pre + (seq![prob_model(entry)] + t.0) =~= (pre + seq![
                                prob_model(entry),
                            ]) + t.0);
                        },
                        None => {},
                    }
                }
                out.push(entry);
                proof {
                    assert(probs_model(out@) =~= pre.push(prob_model(out@[out@.len() - 1])));
                    assert(pre.push(prob_model(out@[out@.len() - 1])) =~= pre + seq![
                        prob_model(out@[out@.len() - 1]),
                    ]);
                }
                p = p2;
            },
            None => {
                proof {
                    let whole = spec_dec_probs(bytes@, pos as int, n as nat);
                    let cur = spec_dec_probs(bytes@, p as int, (n - i) as nat);
                    match spec_dec_prob(bytes@, p as int) {
                        Some(t) => {
                            assert(!valid_name(t.0.0));
                            match cur {
                                Some(u) => {
                                    assert(u.0[0] == t.0);
                                    assert(whole matches Some(w) && w.0[pre.len() as int] == t.0);
                                    assert(!probs_names_valid(whole->Some_0.0));
                                },
                                None => {},
                            }
                        },
                        None => {
                            assert(cur is None);
                        },
                    }
                }
                return None;
            },
        }
        i += 1;
    }
    proof {
        assert(spec_dec_probs(bytes@, p as int, 0) == Some(
            (Seq::<ProblemModel>::empty(), p as int),
        ));
        assert(probs_model(out@) + Seq::<ProblemModel>::empty() =~= probs_model(out@));
    }
    Some((out, p))
}

/// Whether one decoded entry's names pass the grammar.
pub open spec fn entry_names_valid(e: EntryModel) -> bool {
    valid_name(e.0) && probs_names_valid(e.2)
}

/// Reads one registry entry; a name outside the grammar is refused.
fn dec_entry(bytes: &Vec<u8>, pos: usize) -> (r: Option<((NameString, RepositoryIndexEntry), usize)>)
    ensures
        match r {
            Some(t) => spec_dec_entry(bytes@, pos as int) == Some(
                (entry_model(t.0), t.1 as int),
            ),
            None => spec_dec_entry(bytes@, pos as int) is None || !entry_names_valid(
                spec_dec_entry(bytes@, pos as int)->Some_0.0,
            ),
        },
{
    let (name_str, p1) = match dec_string(bytes, pos) {
        Some(t) => t,
        None => {
            return None;
        },
    };
    let (backend, p2) = match dec_backend(bytes, p1) {
        Some(t) => t,
        None => {
            return None;
        },
    };
    let (count, p3) = match dec_u64(bytes, p2) {
        Some(t) => t,
        None => {
            return None;
        },
    };
    let (prob_list, p4) = match dec_probs(bytes, p3, count) {
        Some(t) => t,
        None => {
            return None;
        },
    };
    let name = match NameString::try_from_string(name_str) {
        Ok(n) => n,
        Err(_) => {
            return None;
        },
    };
    Some(((name, RepositoryIndexEntry { backend, prob_list }), p4))
}

/// `o` with a prefix prepended to a decoded entry list.
pub open spec fn opt_prepend_entries(prefix: IndexModel, o: Option<(IndexModel, int)>) -> Option<
    (IndexModel, int),
> {
    match o {
        Some(t) => Some((prefix + t.0, t.1)),
        None => None,
    }
}

/// Reads `n` registry entries.
fn dec_entries(bytes: &Vec<u8>, pos: usize, n: u64) -> (r: Option<
    (Vec<(NameString, RepositoryIndexEntry)>, usize),
>)
    ensures
        match r {
            Some(t) => spec_dec_entries(bytes@, pos as int, n as nat) == Some(
                (index_model(t.0@), t.1 as int),
            ),
            None => spec_dec_entries(bytes@, pos as int, n as nat) is None
                || !index_model_names_valid(
                spec_dec_entries(bytes@, pos as int, n as nat)->Some_0.0,
            ),
        },
{
    let mut out: Vec<(NameString, RepositoryIndexEntry)> = Vec::new();
    let mut p: usize = pos;
    let mut i: u64 = 0;
    proof {
        assert(index_model(out@) =~= Seq::<EntryModel>::empty());
        assert(spec_dec_entries(bytes@, pos as int, n as nat) == opt_prepend_entries(
            index_model(out@),
            spec_dec_entries(bytes@, p as int, (n - i) as nat),
        )) by {
            match spec_dec_entries(bytes@, p as int, (n - i) as nat) {
                Some(t) => {
                    assert(index_model(out@) + t.0 =~= t.0);
                },
                None => {},
            }
        }
    }
    while i < n
        invariant
            0 <= i <= n,
            spec_dec_entries(bytes@, pos as int, n as nat) == opt_prepend_entries(
                index_model(out@),
                spec_dec_entries(bytes@, p as int, (n - i) as nat),
            ),
        decreases n - i,
    {
        let ghost pre = index_model(out@);
        match dec_entry(bytes, p) {
            Some((entry, p2)) => {
                proof {
                    let rest = spec_dec_entries(bytes@, p2 as int, (n - i - 1) as nat);
                    assert(spec_dec_entries(bytes@, p as int, (n - i) as nat)
                        == opt_prepend_entries(seq![entry_model(entry)], rest));
                    match rest {
                        Some(t) => {
                            assert(pre + (seq![entry_model(entry)] + t.0) =~= (pre + seq![
                                entry_model(entry),
                            ]) + t.0);
                        },
                        None => {},
                    }
                }
                out.push(entry);
                proof {
                    assert(index_model(out@) =~= pre + seq![entry_model(out@[out@.len() - 1])]);
                }
                p = p2;
            },
            None => {
                proof {
                    let whole = spec_dec_entries(bytes@, pos as int, n as nat);
                    let cur = spec_dec_entries(bytes@, p as int, (n - i) as nat);
                    match spec_dec_entry(bytes@, p as int) {
                        Some(t) => {
                            assert(!entry_names_valid(t.0));
                            match cur {
                                Some(u) => {
                                    assert(u.0[0] == t.0);
                                    assert(whole matches Some(w) && w.0[pre.len() as int] == t.0);
                                    assert(!index_model_names_valid(whole->Some_0.0)) by {
                                        let w = whole->Some_0.0;
                                        let j = pre.len() as int;
                                        if !valid_name(t.0.0) {
                                            assert(!valid_name(w[j].0));
                                        } else {
                                            let k = choose|k: int|
                                                0 <= k < t.0.2.len() && !valid_name(
                                                    (#[trigger] t.0.2[k]).0,
                                                );
                                            assert(!valid_name(w[j].2[k].0));
                                        }
                                    }
                                },
                                None => {},
                            }
                        },
                        None => {
                            assert(cur is None);
                        },
                    }
                }
                return None;
            },
        }
        i += 1;
    }
    proof {
        assert(spec_dec_entries(bytes@, p as int, 0) == Some((Seq::<EntryModel>::empty(), p as int)));
        assert(index_model(out@) + Seq::<EntryModel>::empty() =~= index_model(out@));
    }
    Some((out, p))
}

/// Decodes a whole snapshot; trailing bytes, a malformed field or a name
/// outside the grammar are refused.
pub fn decode_index(bytes: &Vec<u8>) -> (r: Option<Vec<(NameString, RepositoryIndexEntry)>>)
    ensures
        match r {
            Some(v) => spec_dec_index(bytes@) == Some(index_model(v@)),
            None => spec_dec_index(bytes@) is None || !index_model_names_valid(
                spec_dec_index(bytes@)->Some_0,
            ),
        },
{
    let (n, p1) = match dec_u64(bytes, 0) {
        Some(t) => t,
        None => {
            return None;
        },
    };
    let (entries, p2) = match dec_entries(bytes, p1, n) {
        Some(t) => t,
        None => {
            return None;
        },
    };
    if p2 != bytes.len() {
        return None;
    }
    Some(entries)
}

impl RepositoryManager {
    /// The serialized snapshot of the registry's index, written wholesale to
    /// the index file on dirty teardown.
    pub fn serialize_index(&self) -> (r: Vec<u8>)
        ensures
            r@ == spec_enc_index(index_model(self.repo_index@)),
    {
        encode_index(&self.repo_index)
    }

    /// A registry read back from a snapshot. Refuses a snapshot that does
    /// not decode, holds a name outside the grammar, or lists its repository
    /// names out of ascending order (in particular, one that registers a
    /// name twice).
    pub fn from_bytes(root_path: String, bytes: &Vec<u8>) -> (r: Option<RepositoryManager>)
        ensures
            match r {
                Some(m) => {
                    &&& m.wf()
                    &&& m.root_path == root_path
                    &&& spec_dec_index(bytes@) == Some(index_model(m.repo_index@))
                    &&& !m.dirty
                },
                None => spec_dec_index(bytes@) is None || !index_model_names_valid(
                    spec_dec_index(bytes@)->Some_0,
                ) || !index_model_sorted(spec_dec_index(bytes@)->Some_0),
            },
    {
        let entries = match decode_index(bytes) {
            Some(v) => v,
            None => {
                return None;
            },
        };
        let ghost dm = index_model(entries@);
        match RepositoryManager::from_entries(root_path, entries) {
            Some(m) => {
                proof {
                    assert(index_model(m.repo_index@) =~= dm);
                }
                Some(m)
            },
            None => {
                proof {
                    if index_model_sorted(dm) {
                        assert forall|i: int, j: int|
                            0 <= i < j < entries@.len() implies lex_lt(
                            (#[trigger] entries@[i]).0@,
                            (#[trigger] entries@[j]).0@,
                        ) by {
                            assert(lex_lt(dm[i].0, dm[j].0));
                        }
                    }
                }
                None
            },
        }
    }
}

} // verus!
