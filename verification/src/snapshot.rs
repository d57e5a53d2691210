//! The snapshot: the registry serialized as text, and read back.
//!
//! The format needs no separators: every number is sixteen hex digits
//! (`hex16_chars`), every string is its character count followed by its
//! characters, an entry is identity halves, file count and files, and the
//! whole snapshot is the storage prefix, the entry count and the entries.
//! The encoding is injective, so a snapshot determines its registry.

use crate::hex::{hex16_chars, lemma_hex16_injective, lemma_hex16_roundtrip};
use crate::identity::Identity;
use crate::registry::{unique_ids, FileCoordinator, IdentityEntry};
use vstd::prelude::*;

verus! {

/// A string: its length, then its characters.
pub open spec fn enc_str(s: Seq<char>) -> Seq<char> {
    hex16_chars(s.len() as u64) + s
}

/// File lists, encoded in order.
pub open spec fn enc_files(fs: Seq<Seq<char>>) -> Seq<char>
    decreases fs.len(),
{
    if fs.len() == 0 {
        Seq::empty()
    } else {
        enc_files(fs.drop_last()) + enc_str(fs.last())
    }
}

/// One entry: the identity's two halves, the file count, the files.
pub open spec fn enc_entry(e: (Identity, Seq<Seq<char>>)) -> Seq<char> {
    hex16_chars(e.0.hi) + hex16_chars(e.0.lo) + hex16_chars(e.1.len() as u64) + enc_files(e.1)
}

/// Entry sequences, encoded in order.
pub open spec fn enc_entries(es: Seq<(Identity, Seq<Seq<char>>)>) -> Seq<char>
    decreases es.len(),
{
    if es.len() == 0 {
        Seq::empty()
    } else {
        enc_entries(es.drop_last()) + enc_entry(es.last())
    }
}

/// The whole snapshot: storage prefix, entry count, entries.
pub open spec fn enc_registry(prefix: Seq<char>, es: Seq<(Identity, Seq<Seq<char>>)>) -> Seq<
    char,
> {
    enc_str(prefix) + hex16_chars(es.len() as u64) + enc_entries(es)
}

/// Length bounds under which every count in the encoding is faithful.
pub open spec fn bounds_ok(prefix: Seq<char>, es: Seq<(Identity, Seq<Seq<char>>)>) -> bool {
    &&& prefix.len() <= u64::MAX
    &&& es.len() <= u64::MAX
    &&& forall|i: int|
        0 <= i < es.len() ==> #[trigger] es[i].1.len() <= u64::MAX && (forall|j: int|
            0 <= j < es[i].1.len() ==> #[trigger] es[i].1[j].len() <= u64::MAX)
}

/// What it means for text to be the snapshot of a well-formed registry.
pub open spec fn snapshot_encodes(
    s: Seq<char>,
    prefix: Seq<char>,
    es: Seq<(Identity, Seq<Seq<char>>)>,
) -> bool {
    s == enc_registry(prefix, es) && unique_ids(es) && bounds_ok(prefix, es)
}

/// Splits a known suffix of `s` into its two parts, placed absolutely.
pub proof fn lemma_split_suffix(s: Seq<char>, pos: int, x: Seq<char>, y: Seq<char>)
    requires
        0 <= pos <= s.len(),
        s.subrange(pos, s.len() as int) == x + y,
    ensures
        pos + x.len() + y.len() == s.len(),
        s.subrange(pos, pos + x.len()) == x,
        s.subrange(pos + x.len(), s.len() as int) == y,
{
    assert(s.subrange(pos, s.len() as int).len() == x.len() + y.len());
    let whole = s.subrange(pos, s.len() as int);
    assert(x =~= whole.subrange(0, x.len() as int));
    assert(y =~= whole.subrange(x.len() as int, whole.len() as int));
    s.lemma_slice_of_slice(pos, s.len() as int, 0, x.len() as int);
    s.lemma_slice_of_slice(pos, s.len() as int, x.len() as int, whole.len() as int);
}

/// Places the parts of one encoded string within `s`, from `pos` on.
pub proof fn lemma_enc_str_split(s: Seq<char>, pos: int, t: Seq<char>, rest: Seq<char>)
    requires
        0 <= pos <= s.len(),
        s.subrange(pos, s.len() as int) == enc_str(t) + rest,
    ensures
        pos + 16 + t.len() + rest.len() == s.len(),
        s.subrange(pos, pos + 16) == hex16_chars(t.len() as u64),
        s.subrange(pos + 16, pos + 16 + t.len()) == t,
        s.subrange(pos + 16 + t.len(), s.len() as int) == rest,
{
    assert(s.subrange(pos, s.len() as int) =~= hex16_chars(t.len() as u64) + (t + rest));
    lemma_split_suffix(s, pos, hex16_chars(t.len() as u64), t + rest);
    lemma_split_suffix(s, pos + 16, t, rest);
}

/// Places the parts of one encoded entry within `s`, from `pos` on.
pub proof fn lemma_enc_entry_split(
    s: Seq<char>,
    pos: int,
    e: (Identity, Seq<Seq<char>>),
    rest: Seq<char>,
)
    requires
        0 <= pos <= s.len(),
        s.subrange(pos, s.len() as int) == enc_entry(e) + rest,
    ensures
        pos + 48 + enc_files(e.1).len() + rest.len() == s.len(),
        s.subrange(pos, pos + 16) == hex16_chars(e.0.hi),
        s.subrange(pos + 16, pos + 32) == hex16_chars(e.0.lo),
        s.subrange(pos + 32, pos + 48) == hex16_chars(e.1.len() as u64),
        s.subrange(pos + 48, s.len() as int) == enc_files(e.1) + rest,
{
    assert(s.subrange(pos, s.len() as int) =~= hex16_chars(e.0.hi) + (hex16_chars(e.0.lo) + (
    hex16_chars(e.1.len() as u64) + (enc_files(e.1) + rest))));
    lemma_split_suffix(
        s,
        pos,
        hex16_chars(e.0.hi),
        hex16_chars(e.0.lo) + (hex16_chars(e.1.len() as u64) + (enc_files(e.1) + rest)),
    );
    lemma_split_suffix(
        s,
        pos + 16,
        hex16_chars(e.0.lo),
        hex16_chars(e.1.len() as u64) + (enc_files(e.1) + rest),
    );
    lemma_split_suffix(s, pos + 32, hex16_chars(e.1.len() as u64), enc_files(e.1) + rest);
}

/// Places the parts of a whole snapshot within `s`.
pub proof fn lemma_enc_registry_split(
    s: Seq<char>,
    prefix: Seq<char>,
    es: Seq<(Identity, Seq<Seq<char>>)>,
)
    requires
        s == enc_registry(prefix, es),
    ensures
        s.len() == 32 + prefix.len() + enc_entries(es).len(),
        s.subrange(0, 16) == hex16_chars(prefix.len() as u64),
        s.subrange(16, 16 + prefix.len() as int) == prefix,
        s.subrange(16 + prefix.len() as int, 32 + prefix.len() as int) == hex16_chars(
            es.len() as u64,
        ),
        s.subrange(32 + prefix.len() as int, s.len() as int) == enc_entries(es),
{
    assert(s.subrange(0, s.len() as int) =~= enc_str(prefix) + (hex16_chars(es.len() as u64)
        + enc_entries(es)));
    lemma_enc_str_split(s, 0, prefix, hex16_chars(es.len() as u64) + enc_entries(es));
    lemma_split_suffix(s, 16 + prefix.len() as int, hex16_chars(es.len() as u64), enc_entries(es));
}

/// Peels the first file off an encoded file list.
pub proof fn lemma_enc_files_head(fs: Seq<Seq<char>>)
    requires
        fs.len() > 0,
    ensures
        enc_files(fs) == enc_str(fs.first()) + enc_files(fs.drop_first()),
    decreases fs.len(),
{
    if fs.len() == 1 {
        assert(fs.drop_last() =~= Seq::<Seq<char>>::empty());
        assert(fs.drop_first() =~= Seq::<Seq<char>>::empty());
        assert(fs.last() == fs.first());
        assert(enc_files(fs) =~= enc_str(fs.first()) + enc_files(fs.drop_first()));
    } else {
        lemma_enc_files_head(fs.drop_last());
        assert(fs.drop_last().first() == fs.first());
        assert(fs.drop_last().drop_first() =~= fs.drop_first().drop_last());
        assert(fs.drop_first().last() == fs.last());
        assert(enc_files(fs.drop_first()) == enc_files(fs.drop_first().drop_last()) + enc_str(
            fs.last(),
        ));
        assert(enc_files(fs) =~= enc_str(fs.first()) + enc_files(fs.drop_first()));
    }
}

/// Peels the first entry off an encoded entry list.
pub proof fn lemma_enc_entries_head(es: Seq<(Identity, Seq<Seq<char>>)>)
    requires
        es.len() > 0,
    ensures
        enc_entries(es) == enc_entry(es.first()) + enc_entries(es.drop_first()),
    decreases es.len(),
{
    if es.len() == 1 {
        assert(es.drop_last() =~= Seq::<(Identity, Seq<Seq<char>>)>::empty());
        assert(es.drop_first() =~= Seq::<(Identity, Seq<Seq<char>>)>::empty());
        assert(es.last() == es.first());
        assert(enc_entries(es) =~= enc_entry(es.first()) + enc_entries(es.drop_first()));
    } else {
        lemma_enc_entries_head(es.drop_last());
        assert(es.drop_last().first() == es.first());
        assert(es.drop_last().drop_first() =~= es.drop_first().drop_last());
        assert(es.drop_first().last() == es.last());
        assert(enc_entries(es.drop_first()) == enc_entries(es.drop_first().drop_last())
            + enc_entry(es.last()));
        assert(enc_entries(es) =~= enc_entry(es.first()) + enc_entries(es.drop_first()));
    }
}

proof fn lemma_enc_str_injective(a: Seq<char>, b: Seq<char>, ra: Seq<char>, rb: Seq<char>)
    requires
        a.len() <= u64::MAX,
        b.len() <= u64::MAX,
        enc_str(a) + ra == enc_str(b) + rb,
    ensures
        a == b,
        ra == rb,
{
    let s = enc_str(a) + ra;
    assert(s.subrange(0, s.len() as int) =~= s);
    lemma_enc_str_split(s, 0, a, ra);
    lemma_enc_str_split(s, 0, b, rb);
    lemma_hex16_injective(a.len() as u64, b.len() as u64);
    assert(a.len() == b.len());
}

proof fn lemma_enc_files_injective(
    f1: Seq<Seq<char>>,
    f2: Seq<Seq<char>>,
    r1: Seq<char>,
    r2: Seq<char>,
)
    requires
        f1.len() == f2.len(),
        forall|j: int| 0 <= j < f1.len() ==> #[trigger] f1[j].len() <= u64::MAX,
        forall|j: int| 0 <= j < f2.len() ==> #[trigger] f2[j].len() <= u64::MAX,
        enc_files(f1) + r1 == enc_files(f2) + r2,
    ensures
        f1 == f2,
        r1 == r2,
    decreases f1.len(),
{
    if f1.len() == 0 {
        assert(f1 =~= f2);
        assert(enc_files(f1) =~= Seq::<char>::empty());
        assert(enc_files(f2) =~= Seq::<char>::empty());
        assert(r1 =~= enc_files(f1) + r1);
        assert(r2 =~= enc_files(f2) + r2);
    } else {
        lemma_enc_files_head(f1);
        lemma_enc_files_head(f2);
        assert((enc_str(f1.first()) + enc_files(f1.drop_first())) + r1 =~= enc_str(f1.first()) + (
        enc_files(f1.drop_first()) + r1));
        assert((enc_str(f2.first()) + enc_files(f2.drop_first())) + r2 =~= enc_str(f2.first()) + (
        enc_files(f2.drop_first()) + r2));
        lemma_enc_str_injective(
            f1.first(),
            f2.first(),
            enc_files(f1.drop_first()) + r1,
            enc_files(f2.drop_first()) + r2,
        );
        assert forall|j: int|
            0 <= j < f1.drop_first().len() implies #[trigger] f1.drop_first()[j].len()
            <= u64::MAX by {
            assert(f1[j + 1].len() <= u64::MAX);
        }
        assert forall|j: int|
            0 <= j < f2.drop_first().len() implies #[trigger] f2.drop_first()[j].len()
            <= u64::MAX by {
            assert(f2[j + 1].len() <= u64::MAX);
        }
        lemma_enc_files_injective(f1.drop_first(), f2.drop_first(), r1, r2);
        assert(f1 =~= f2) by {
            assert forall|k: int| 0 <= k < f1.len() implies f1[k] == f2[k] by {
                if k > 0 {
                    assert(f1.drop_first()[k - 1] == f2.drop_first()[k - 1]);
                }
            }
        }
    }
}

proof fn lemma_enc_entries_injective(
    es1: Seq<(Identity, Seq<Seq<char>>)>,
    es2: Seq<(Identity, Seq<Seq<char>>)>,
    r1: Seq<char>,
    r2: Seq<char>,
)
    requires
        es1.len() == es2.len(),
        forall|i: int|
            0 <= i < es1.len() ==> #[trigger] es1[i].1.len() <= u64::MAX && (forall|j: int|
                0 <= j < es1[i].1.len() ==> #[trigger] es1[i].1[j].len() <= u64::MAX),
        forall|i: int|
            0 <= i < es2.len() ==> #[trigger] es2[i].1.len() <= u64::MAX && (forall|j: int|
                0 <= j < es2[i].1.len() ==> #[trigger] es2[i].1[j].len() <= u64::MAX),
        enc_entries(es1) + r1 == enc_entries(es2) + r2,
    ensures
        es1 == es2,
        r1 == r2,
    decreases es1.len(),
{
    if es1.len() == 0 {
        assert(es1 =~= es2);
        assert(enc_entries(es1) =~= Seq::<char>::empty());
        assert(enc_entries(es2) =~= Seq::<char>::empty());
        assert(r1 =~= enc_entries(es1) + r1);
        assert(r2 =~= enc_entries(es2) + r2);
    } else {
        lemma_enc_entries_head(es1);
        lemma_enc_entries_head(es2);
        let e1 = es1.first();
        let e2 = es2.first();
        let t1 = enc_entries(es1.drop_first()) + r1;
        let t2 = enc_entries(es2.drop_first()) + r2;
        let s = enc_entries(es1) + r1;
        assert(s.subrange(0, s.len() as int) =~= enc_entry(e1) + t1);
        assert(s.subrange(0, s.len() as int) =~= enc_entry(e2) + t2);
        lemma_enc_entry_split(s, 0, e1, t1);
        lemma_enc_entry_split(s, 0, e2, t2);
        lemma_hex16_injective(e1.0.hi, e2.0.hi);
        lemma_hex16_injective(e1.0.lo, e2.0.lo);
        assert(es1[0].1.len() <= u64::MAX);
        assert(es2[0].1.len() <= u64::MAX);
        lemma_hex16_injective(e1.1.len() as u64, e2.1.len() as u64);
        assert(e1.1.len() == e2.1.len());
        lemma_enc_files_injective(e1.1, e2.1, t1, t2);
        assert forall|i: int|
            0 <= i < es1.drop_first().len() implies #[trigger] es1.drop_first()[i].1.len()
            <= u64::MAX && (forall|j: int|
            0 <= j < es1.drop_first()[i].1.len() ==> #[trigger] es1.drop_first()[i].1[j].len()
                <= u64::MAX) by {
            assert(es1[i + 1].1.len() <= u64::MAX);
            assert(es1.drop_first()[i] == es1[i + 1]);
        }
        assert forall|i: int|
            0 <= i < es2.drop_first().len() implies #[trigger] es2.drop_first()[i].1.len()
            <= u64::MAX && (forall|j: int|
            0 <= j < es2.drop_first()[i].1.len() ==> #[trigger] es2.drop_first()[i].1[j].len()
                <= u64::MAX) by {
            assert(es2[i + 1].1.len() <= u64::MAX);
            assert(es2.drop_first()[i] == es2[i + 1]);
        }
        lemma_enc_entries_injective(es1.drop_first(), es2.drop_first(), r1, r2);
        assert(es1 =~= es2) by {
            assert forall|k: int| 0 <= k < es1.len() implies es1[k] == es2[k] by {
                if k > 0 {
                    assert(es1.drop_first()[k - 1] == es2.drop_first()[k - 1]);
                }
            }
        }
    }
}

/// A snapshot determines its registry: two registries with the same
/// encoding have the same storage prefix and the same entries. Together
/// with the encoder's and decoder's contracts, saving and then loading
/// reproduces an equivalent registry.
pub proof fn lemma_enc_registry_injective(
    p1: Seq<char>,
    es1: Seq<(Identity, Seq<Seq<char>>)>,
    p2: Seq<char>,
    es2: Seq<(Identity, Seq<Seq<char>>)>,
)
    requires
        bounds_ok(p1, es1),
        bounds_ok(p2, es2),
        enc_registry(p1, es1) == enc_registry(p2, es2),
    ensures
        p1 == p2,
        es1 == es2,
{
    let s = enc_registry(p1, es1);
    lemma_enc_registry_split(s, p1, es1);
    lemma_enc_registry_split(s, p2, es2);
    lemma_hex16_injective(p1.len() as u64, p2.len() as u64);
    assert(p1.len() == p2.len());
    lemma_hex16_injective(es1.len() as u64, es2.len() as u64);
    assert(es1.len() == es2.len());
    assert(enc_entries(es1) + Seq::<char>::empty() =~= enc_entries(es2) + Seq::<char>::empty());
    lemma_enc_entries_injective(es1, es2, Seq::empty(), Seq::empty());
}

/// Every string a text region can hold is far shorter than its count field
/// allows; the encoder learns each length from the string itself.
pub open spec fn files_bounded(fs: Seq<Seq<char>>) -> bool {
    forall|j: int| 0 <= j < fs.len() ==> #[trigger] fs[j].len() <= u64::MAX
}

/// Appends the encoding of one string.
fn push_enc_str(out: &mut String, t: &String)
    ensures
        final(out)@ == old(out)@ + enc_str(t@),
        t@.len() <= u64::MAX,
{
    let n = t.as_str().unicode_len();
    crate::hex::push_hex16(out, n as u64);
    out.append(t.as_str());
    assert(out@ =~= old(out)@ + enc_str(t@));
}

impl FileCoordinator {
    /// Serializes the registry; the result is exactly its encoding.
    pub fn encode_snapshot(&self) -> (r: String)
        ensures
            r@ == enc_registry(self.storage_prefix@, self.entries()),
            bounds_ok(self.storage_prefix@, self.entries()),
            self.wf() ==> snapshot_encodes(r@, self.storage_prefix@, self.entries()),
    {
        let mut out = String::new();
        push_enc_str(&mut out, &self.storage_prefix);
        crate::hex::push_hex16(&mut out, self.list.len() as u64);
        let ghost header = enc_str(self.storage_prefix@) + hex16_chars(self.list@.len() as u64);
        assert(out@ =~= header);
        assert(out@ =~= header + enc_entries(self.entries().take(0)));
        let mut i: usize = 0;
        while i < self.list.len()
            invariant
                i <= self.list@.len(),
                header == enc_str(self.storage_prefix@) + hex16_chars(self.list@.len() as u64),
                out@ == header + enc_entries(self.entries().take(i as int)),
                forall|k: int|
                    0 <= k < i ==> #[trigger] self.entries()[k].1.len() <= u64::MAX
                        && files_bounded(self.entries()[k].1),
            decreases self.list@.len() - i,
        {
            let entry = &self.list[i];
            crate::hex::push_hex16(&mut out, entry.id.hi);
            crate::hex::push_hex16(&mut out, entry.id.lo);
            crate::hex::push_hex16(&mut out, entry.files.len() as u64);
            let ghost entry_base = out@;
            let ghost fs = entry.files.deep_view();
            assert(fs.len() == entry.files@.len());
            assert(out@ =~= entry_base + enc_files(fs.take(0)));
            let mut j: usize = 0;
            while j < entry.files.len()
                invariant
                    j <= entry.files@.len(),
                    fs == entry.files.deep_view(),
                    fs.len() == entry.files@.len(),
                    entry == &self.list@[i as int],
                    i < self.list@.len(),
                    out@ == entry_base + enc_files(fs.take(j as int)),
                    forall|k: int| 0 <= k < j ==> #[trigger] fs[k].len() <= u64::MAX,
                decreases entry.files@.len() - j,
            {
                push_enc_str(&mut out, &entry.files[j]);
                proof {
                    assert(entry.files@[j as int]@ == fs[j as int]);
                    assert(fs.take(j + 1).drop_last() =~= fs.take(j as int));
                    assert(fs.take(j + 1).last() == fs[j as int]);
                    assert(out@ =~= entry_base + enc_files(fs.take(j + 1)));
                }
                j = j + 1;
            }
            proof {
                assert(fs.take(fs.len() as int) =~= fs);
                let e = (entry.id, fs);
                assert(self.entries()[i as int] == e);
                assert(out@ =~= entry_base + enc_files(fs));
                assert(out@ =~= header + enc_entries(self.entries().take(i as int)) + enc_entry(e));
                assert(self.entries().take(i + 1).drop_last() =~= self.entries().take(i as int));
                assert(self.entries().take(i + 1).last() == e);
                assert(out@ =~= header + enc_entries(self.entries().take(i + 1)));
                assert(files_bounded(fs));
                assert(fs.len() == entry.files@.len());
            }
            i = i + 1;
        }
        proof {
            assert(self.entries().take(self.list@.len() as int) =~= self.entries());
            assert(out@ =~= enc_registry(self.storage_prefix@, self.entries()));
            assert(bounds_ok(self.storage_prefix@, self.entries())) by {
                assert forall|k: int|
                    0 <= k < self.entries().len() implies #[trigger] self.entries()[k].1.len()
                    <= u64::MAX && (forall|j: int|
                    0 <= j < self.entries()[k].1.len() ==> #[trigger] self.entries()[k].1[j].len()
                        <= u64::MAX) by {
                    assert(files_bounded(self.entries()[k].1));
                }
            }
        }
        out
    }
}

/// Reads one encoded string at `pos`; wherever such a string stands, the
/// result is exactly that string.
fn parse_enc_str(s: &str, len: usize, pos: usize) -> (r: Option<(String, usize)>)
    requires
        len == s@.len(),
    ensures
        r matches Some(tp) ==> pos <= tp.1 <= s@.len(),
        forall|t: Seq<char>, rest: Seq<char>|
            #![trigger enc_str(t).add(rest)]
            (t.len() <= u64::MAX && pos <= s@.len() && s@.subrange(pos as int, s@.len() as int)
                == enc_str(t) + rest) ==> (r matches Some(tp) && tp.0@ == t && tp.1 == pos + 16
                + t.len()),
{
    let parsed = crate::hex::parse_hex16(s, len, pos);
    proof {
        assert forall|t: Seq<char>, rest: Seq<char>|
            #![trigger enc_str(t).add(rest)]
            (t.len() <= u64::MAX && pos <= s@.len() && s@.subrange(pos as int, s@.len() as int)
                == enc_str(t) + rest) implies (parsed matches Some(vp) && vp.0 == t.len() as u64
            && vp.1 == pos + 16 && pos + 16 + t.len() + rest.len() == s@.len()) by {
            lemma_enc_str_split(s@, pos as int, t, rest);
        }
    }
    match parsed {
        None => None,
        Some((n, p2)) => {
            if n > (len - p2) as u64 {
                return None;
            }
            let tlen = n as usize;
            let sub = s.substring_char(p2, p2 + tlen);
            let owned = sub.to_owned();
            proof {
                assert forall|t: Seq<char>, rest: Seq<char>|
                    #![trigger enc_str(t).add(rest)]
                    (t.len() <= u64::MAX && pos <= s@.len() && s@.subrange(
                        pos as int,
                        s@.len() as int,
                    ) == enc_str(t) + rest) implies (owned@ == t && p2 + tlen == pos + 16
                    + t.len()) by {
                    lemma_enc_str_split(s@, pos as int, t, rest);
                }
            }
            Some((owned, p2 + tlen))
        },
    }
}

/// One bounded entry stands encoded at `pos` in `s`, followed by `rest`.
pub open spec fn entry_stands(
    s: Seq<char>,
    pos: int,
    e: (Identity, Seq<Seq<char>>),
    rest: Seq<char>,
) -> bool {
    &&& e.1.len() <= u64::MAX
    &&& files_bounded(e.1)
    &&& 0 <= pos <= s.len()
    &&& s.subrange(pos, s.len() as int) == enc_entry(e) + rest
}

proof fn lemma_enc_entry_injective(
    e1: (Identity, Seq<Seq<char>>),
    e2: (Identity, Seq<Seq<char>>),
    r1: Seq<char>,
    r2: Seq<char>,
)
    requires
        e1.1.len() <= u64::MAX,
        e2.1.len() <= u64::MAX,
        files_bounded(e1.1),
        files_bounded(e2.1),
        enc_entry(e1) + r1 == enc_entry(e2) + r2,
    ensures
        e1 == e2,
        r1 == r2,
{
    let s = enc_entry(e1) + r1;
    assert(s.subrange(0, s.len() as int) =~= s);
    lemma_enc_entry_split(s, 0, e1, r1);
    lemma_enc_entry_split(s, 0, e2, r2);
    lemma_hex16_injective(e1.0.hi, e2.0.hi);
    lemma_hex16_injective(e1.0.lo, e2.0.lo);
    lemma_hex16_injective(e1.1.len() as u64, e2.1.len() as u64);
    assert(e1.1.len() == e2.1.len());
    lemma_enc_files_injective(e1.1, e2.1, r1, r2);
    assert(e1.0 == e2.0);
}

/// Reads one encoded entry at `pos`; wherever such an entry stands, the
/// result is exactly that entry.
fn parse_entry(s: &str, len: usize, pos: usize) -> (r: Option<(IdentityEntry, usize)>)
    requires
        len == s@.len(),
    ensures
        r matches Some(ep) ==> pos <= ep.1 <= s@.len(),
        forall|e: (Identity, Seq<Seq<char>>), rest: Seq<char>|
            #[trigger] entry_stands(s@, pos as int, e, rest) ==> (r matches Some(ep) && ep.0.id
                == e.0 && ep.0.files.deep_view() == e.1 && ep.1 == pos + 48 + enc_files(
                e.1,
            ).len()),
{
    let ghost has = exists|e: (Identity, Seq<Seq<char>>), rest: Seq<char>|
        entry_stands(s@, pos as int, e, rest);
    let ghost (ge, grest): ((Identity, Seq<Seq<char>>), Seq<char>) = if has {
        choose|e: (Identity, Seq<Seq<char>>), rest: Seq<char>| entry_stands(
            s@,
            pos as int,
            e,
            rest,
        )
    } else {
        arbitrary()
    };
    proof {
        if has {
            assert forall|e: (Identity, Seq<Seq<char>>), rest: Seq<char>|
                entry_stands(s@, pos as int, e, rest) implies e == ge && rest == grest by {
                lemma_enc_entry_injective(e, ge, rest, grest);
            }
        }
    }
    proof {
        if has {
            lemma_enc_entry_split(s@, pos as int, ge, grest);
        }
    }
    let hi = match crate::hex::parse_hex16(s, len, pos) {
        Some(vp) => vp.0,
        None => {
            proof {
                if has {
                    assert(false);
                }
            }
            return None;
        },
    };
    let lo = match crate::hex::parse_hex16(s, len, pos + 16) {
        Some(vp) => vp.0,
        None => {
            proof {
                if has {
                    assert(false);
                }
            }
            return None;
        },
    };
    let nf = match crate::hex::parse_hex16(s, len, pos + 32) {
        Some(vp) => vp.0,
        None => {
            proof {
                if has {
                    assert(false);
                }
            }
            return None;
        },
    };
    proof {
        if has {
            assert(hi == ge.0.hi && lo == ge.0.lo && nf == ge.1.len() as u64);
        }
    }
    let mut files: Vec<String> = Vec::new();
    let mut fpos: usize = pos + 48;
    let mut j: u64 = 0;
    proof {
        if has {
            assert(ge.1.take(0) =~= Seq::<Seq<char>>::empty());
            assert(files.deep_view() =~= ge.1.take(0));
            assert(ge.1.skip(0) =~= ge.1);
            assert(enc_files(ge.1.take(0)) =~= Seq::<char>::empty());
        }
    }
    while j < nf
        invariant
            len == s@.len(),
            j <= nf,
            pos <= fpos <= len,
            has == exists|e: (Identity, Seq<Seq<char>>), rest: Seq<char>|
                entry_stands(s@, pos as int, e, rest),
            has ==> entry_stands(s@, pos as int, ge, grest),
            has ==> nf == ge.1.len() as u64 && j <= ge.1.len(),
            has ==> files.deep_view() == ge.1.take(j as int),
            has ==> fpos == pos + 48 + enc_files(ge.1.take(j as int)).len(),
            has ==> fpos <= s@.len() && s@.subrange(fpos as int, s@.len() as int) == enc_files(
                ge.1.skip(j as int),
            ) + grest,
        decreases nf - j,
    {
        proof {
            if has {
                let fsrem = ge.1.skip(j as int);
                lemma_enc_files_head(fsrem);
                assert(fsrem.first() == ge.1[j as int]);
                assert(fsrem.drop_first() =~= ge.1.skip(j as int + 1));
                assert(s@.subrange(fpos as int, s@.len() as int) =~= enc_str(ge.1[j as int]) + (
                enc_files(ge.1.skip(j as int + 1)) + grest));
                assert(ge.1[j as int].len() <= u64::MAX);
            }
        }
        let (fname, fpos2) = match parse_enc_str(s, len, fpos) {
            Some(tp) => tp,
            None => {
                proof {
                    if has {
                        assert(false);
                    }
                }
                return None;
            },
        };
        files.push(fname);
        proof {
            if has {
                lemma_enc_str_split(
                    s@,
                    fpos as int,
                    ge.1[j as int],
                    enc_files(ge.1.skip(j as int + 1)) + grest,
                );
                assert(files.deep_view() =~= ge.1.take(j as int + 1));
                assert(ge.1.take(j as int + 1).drop_last() =~= ge.1.take(j as int));
                assert(ge.1.take(j as int + 1).last() == ge.1[j as int]);
                assert(enc_files(ge.1.take(j as int + 1)) == enc_files(ge.1.take(j as int))
                    + enc_str(ge.1[j as int]));
            }
        }
        fpos = fpos2;
        j = j + 1;
    }
    proof {
        if has {
            assert(ge.1.take(j as int) =~= ge.1);
        }
    }
    Some((IdentityEntry { id: Identity { hi, lo }, files }, fpos))
}

/// Whether two texts hold the same characters.
fn str_eq_chars(a: &str, b: &str) -> (r: bool)
    ensures
        r == (a@ == b@),
{
    let la = a.unicode_len();
    let lb = b.unicode_len();
    if la != lb {
        return false;
    }
    let mut i: usize = 0;
    while i < la
        invariant
            i <= la,
            la == a@.len(),
            la == b@.len(),
            forall|k: int| 0 <= k < i ==> a@[k] == b@[k],
        decreases la - i,
    {
        if a.get_char(i) != b.get_char(i) {
            return false;
        }
        i = i + 1;
    }
    assert(a@ =~= b@);
    true
}

/// Reads a snapshot back. On the encoding of any well-formed registry the
/// result is that registry, storage prefix and entries alike; on anything
/// else it is `None` or a registry whose encoding is exactly the given text.
pub fn decode_snapshot(s: &str) -> (r: Option<FileCoordinator>)
    ensures
        r matches Some(c) ==> c.wf() && snapshot_encodes(s@, c.storage_prefix@, c.entries()),
        forall|p: Seq<char>, es: Seq<(Identity, Seq<Seq<char>>)>|
            #[trigger] snapshot_encodes(s@, p, es) ==> (r matches Some(c) && c.storage_prefix@
                == p && c.entries() == es),
{
    let ghost has = exists|p: Seq<char>, es: Seq<(Identity, Seq<Seq<char>>)>|
        #[trigger] snapshot_encodes(s@, p, es);
    let ghost (gp, ges): (Seq<char>, Seq<(Identity, Seq<Seq<char>>)>) = if has {
        choose|p: Seq<char>, es: Seq<(Identity, Seq<Seq<char>>)>|
            #[trigger] snapshot_encodes(s@, p, es)
    } else {
        arbitrary()
    };
    proof {
        if has {
            lemma_enc_registry_split(s@, gp, ges);
            assert(s@.subrange(0, s@.len() as int) =~= enc_str(gp) + (hex16_chars(
                ges.len() as u64,
            ) + enc_entries(ges)));
        }
    }
    let len = s.unicode_len();
    let (prefix, pos1) = match parse_enc_str(s, len, 0) {
        Some(tp) => tp,
        None => {
            proof {
                if has {
                    assert(false);
                }
            }
            return None;
        },
    };
    proof {
        if has {
            lemma_enc_str_split(s@, 0, gp, hex16_chars(ges.len() as u64) + enc_entries(ges));
            assert(prefix@ == gp && pos1 == 16 + gp.len());
            lemma_split_suffix(s@, pos1 as int, hex16_chars(ges.len() as u64), enc_entries(ges));
        }
    }
    let (count, pos2) = match crate::hex::parse_hex16(s, len, pos1) {
        Some(vp) => vp,
        None => {
            proof {
                if has {
                    assert(false);
                }
            }
            return None;
        },
    };
    proof {
        if has {
            assert(count == ges.len() as u64);
            assert(pos2 == 32 + gp.len());
        }
    }
    let mut list: Vec<IdentityEntry> = Vec::new();
    let mut pos: usize = pos2;
    let mut i: u64 = 0;
    proof {
        if has {
            assert(ges.take(0) =~= Seq::<(Identity, Seq<Seq<char>>)>::empty());
            assert(crate::registry::entries_of(list@) =~= ges.take(0));
            assert(ges.skip(0) =~= ges);
            assert(s@.subrange(pos as int, s@.len() as int) == enc_entries(ges) + Seq::<
                char,
            >::empty()) by {
                assert(enc_entries(ges) + Seq::<char>::empty() =~= enc_entries(ges));
            }
        }
    }
    while i < count
        invariant
            len == s@.len(),
            i <= count,
            has == exists|p: Seq<char>, es: Seq<(Identity, Seq<Seq<char>>)>|
                snapshot_encodes(s@, p, es),
            has ==> snapshot_encodes(s@, gp, ges),
            has ==> prefix@ == gp,
            has ==> count == ges.len() as u64 && i <= ges.len(),
            has ==> crate::registry::entries_of(list@) == ges.take(i as int),
            has ==> pos <= s@.len() && s@.subrange(pos as int, s@.len() as int) == enc_entries(
                ges.skip(i as int),
            ) + Seq::<char>::empty(),
        decreases count - i,
    {
        proof {
            if has {
                let esrem = ges.skip(i as int);
                lemma_enc_entries_head(esrem);
                assert(esrem.first() == ges[i as int]);
                assert(esrem.drop_first() =~= ges.skip(i as int + 1));
                assert(enc_entries(esrem) + Seq::<char>::empty() =~= enc_entries(esrem));
                assert(s@.subrange(pos as int, s@.len() as int) =~= enc_entry(ges[i as int]) + (
                enc_entries(ges.skip(i as int + 1)) + Seq::<char>::empty()));
                assert(ges[i as int].1.len() <= u64::MAX && files_bounded(ges[i as int].1)) by {
                    assert(ges[i as int].1.len() <= u64::MAX && (forall|jj: int|
                        0 <= jj < ges[i as int].1.len() ==> #[trigger] ges[i as int].1[jj].len()
                            <= u64::MAX));
                }
                assert(entry_stands(
                    s@,
                    pos as int,
                    ges[i as int],
                    enc_entries(ges.skip(i as int + 1)) + Seq::<char>::empty(),
                ));
            }
        }
        let (entry, npos) = match parse_entry(s, len, pos) {
            Some(ep) => ep,
            None => {
                proof {
                    if has {
                        assert(false);
                    }
                }
                return None;
            },
        };
        list.push(entry);
        proof {
            if has {
                let e = ges[i as int];
                let tail = enc_entries(ges.skip(i as int + 1)) + Seq::<char>::empty();
                assert(entry.id == e.0 && entry.files.deep_view() == e.1);
                assert(crate::registry::entries_of(list@) =~= ges.take(i as int + 1));
                lemma_split_suffix(s@, pos as int, enc_entry(e), tail);
                assert(npos == pos + enc_entry(e).len());
                assert(s@.subrange(npos as int, s@.len() as int) == tail);
            }
        }
        pos = npos;
        i = i + 1;
    }
    proof {
        if has {
            assert(ges.take(i as int) =~= ges);
        }
    }
    let candidate = FileCoordinator { storage_prefix: prefix, list };
    if !crate::registry::has_unique_ids(&candidate.list) {
        proof {
            if has {
                assert(false);
            }
        }
        return None;
    }
    let reencoded = candidate.encode_snapshot();
    if str_eq_chars(reencoded.as_str(), s) {
        proof {
            assert forall|p: Seq<char>, es: Seq<(Identity, Seq<Seq<char>>)>|
                snapshot_encodes(s@, p, es) implies candidate.storage_prefix@ == p
                && candidate.entries() == es by {
                lemma_enc_registry_injective(candidate.storage_prefix@, candidate.entries(), p, es);
            }
        }
        Some(candidate)
    } else {
        proof {
            if has {
                assert(reencoded@ == s@);
                assert(false);
            }
        }
        None
    }
}

} // verus!
