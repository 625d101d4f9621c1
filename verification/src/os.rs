//! Process arguments and environment variables, as the kernel hands them to
//! a fresh process: two flat byte blobs, parsed here into their entries.
//!
//! The argument blob is a space-separated list; the environment blob is a
//! NUL-separated list of `key=value` entries whose values may in turn hold
//! `;`-separated lists. The embedding program owns the raw pointers the
//! kernel passed and copies the blobs into plain bytes before they get here.

use vstd::prelude::*;

verus! {

/// Separator between arguments in the argument blob: a space.
pub const ARG_SEP: u8 = 32;

/// Separator between a key and its value inside one environment entry: `=`.
pub const KV_SEP: u8 = 61;

/// Separator between list elements inside one environment value: `;`.
pub const LIST_SEP: u8 = 59;

/// Why an argument or environment blob was rejected at process start: the
/// kernel handed a null pointer, or the bytes are not valid text.
#[derive(Debug, PartialEq, Eq, Clone, Copy, Structural)]
pub enum EnvErr {
    Utf8,
    InvalidPtr,
}

/// Index of the first occurrence of `sep` at or after `from`, or the length
/// when there is none.
pub open spec fn find_byte(s: Seq<u8>, sep: u8, from: int) -> int
    decreases s.len() - from,
{
    if from < 0 || from >= s.len() {
        s.len() as int
    } else if s[from] == sep {
        from
    } else {
        find_byte(s, sep, from + 1)
    }
}

pub proof fn lemma_find_byte_bounds(s: Seq<u8>, sep: u8, from: int)
    requires
        0 <= from <= s.len(),
    ensures
        from <= find_byte(s, sep, from) <= s.len(),
        find_byte(s, sep, from) < s.len() ==> s[find_byte(s, sep, from)] == sep,
        forall|k: int| from <= k < find_byte(s, sep, from) ==> s[k] != sep,
    decreases s.len() - from,
{
    if from < s.len() && s[from] != sep {
        lemma_find_byte_bounds(s, sep, from + 1);
    }
}

/// The first `sep` in `s` is exactly where the bytes before it say it is.
pub proof fn lemma_find_byte_at(s: Seq<u8>, sep: u8, from: int, m: int)
    requires
        0 <= from <= m <= s.len(),
        forall|k: int| from <= k < m ==> s[k] != sep,
        m == s.len() || s[m] == sep,
    ensures
        find_byte(s, sep, from) == m,
    decreases m - from,
{
    if from < m {
        lemma_find_byte_at(s, sep, from + 1, m);
    }
}

/// The pieces of `s` between occurrences of `sep`: always one piece more
/// than there are separators, so an empty blob has one empty piece.
pub open spec fn split_on(s: Seq<u8>, sep: u8) -> Seq<Seq<u8>>
    decreases s.len(),
    via split_on_decreases
{
    let i = find_byte(s, sep, 0);
    if i == s.len() {
        seq![s]
    } else {
        seq![s.take(i)] + split_on(s.skip(i + 1), sep)
    }
}

#[via_fn]
proof fn split_on_decreases(s: Seq<u8>, sep: u8) {
    lemma_find_byte_bounds(s, sep, 0);
}

/// Splits a byte string at every occurrence of `sep`.
fn split_vec(bytes: &Vec<u8>, sep: u8) -> (r: Vec<Vec<u8>>)
    ensures
        r.deep_view() == split_on(bytes@, sep),
{
    let s = bytes;
    let ghost sq = bytes@;
    let mut out: Vec<Vec<u8>> = Vec::new();
    let mut cur: Vec<u8> = Vec::new();
    let mut i: usize = 0;
    let ghost mut c: int = 0;
    proof {
        assert(sq.skip(0) =~= sq);
        assert(split_on(sq, sep) =~~= out.deep_view() + split_on(sq.skip(0), sep));
    }
    while i < s.len()
        invariant
            0 <= c <= i <= s.len(),
            sq == s@,
            cur@ == sq.subrange(c, i as int),
            forall|k: int| c <= k < i ==> sq[k] != sep,
            split_on(sq, sep) == out.deep_view() + split_on(sq.skip(c), sep),
        decreases s.len() - i,
    {
        let b = s[i];
        if b == sep {
            proof {
                let tail = sq.skip(c);
                lemma_find_byte_at(tail, sep, 0, i - c);
                assert(tail.take(i - c) =~= sq.subrange(c, i as int));
                assert(tail.skip(i - c + 1) =~= sq.skip(i + 1));
                assert(split_on(tail, sep) == seq![cur@] + split_on(sq.skip(i + 1), sep));
            }
            let ghost out0 = out.deep_view();
            let ghost piece = cur@;
            out.push(cur);
            cur = Vec::new();
            proof {
                assert(out.deep_view() =~~= out0.push(piece));
                assert(out0.push(piece) =~~= out0 + seq![piece]);
                assert(split_on(sq, sep) =~~= out.deep_view() + split_on(sq.skip(i + 1), sep));
                c = i + 1;
                assert(cur@ =~= sq.subrange(c, i + 1));
            }
        } else {
            cur.push(b);
            proof {
                assert(cur@ =~= sq.subrange(c, i + 1));
            }
        }
        i = i + 1;
    }
    proof {
        let tail = sq.skip(c);
        lemma_find_byte_at(tail, sep, 0, sq.len() - c);
        assert(split_on(tail, sep) == seq![tail]);
        assert(tail =~= sq.subrange(c, sq.len() as int));
    }
    let ghost out0 = out.deep_view();
    let ghost piece = cur@;
    out.push(cur);
    proof {
        assert(out.deep_view() =~~= out0.push(piece));
        assert(out0.push(piece) =~~= out0 + seq![piece]);
        assert(split_on(sq, sep) =~~= out.deep_view());
    }
    out
}

/// A copy of `v[from..to]`.
fn take_range(v: &Vec<u8>, from: usize, to: usize) -> (r: Vec<u8>)
    requires
        from <= to <= v@.len(),
    ensures
        r@ == v@.subrange(from as int, to as int),
{
    let mut r: Vec<u8> = Vec::new();
    let mut i = from;
    while i < to
        invariant
            from <= i <= to <= v@.len(),
            r@ == v@.subrange(from as int, i as int),
        decreases to - i,
    {
        r.push(v[i]);
        proof {
            assert(r@ =~= v@.subrange(from as int, i + 1));
        }
        i = i + 1;
    }
    r
}

/// Index of the first `sep` in `v`, or its length when there is none.
fn find_in(v: &Vec<u8>, sep: u8) -> (r: usize)
    ensures
        r == find_byte(v@, sep, 0),
{
    let mut i: usize = 0;
    while i < v.len()
        invariant
            0 <= i <= v@.len(),
            forall|k: int| 0 <= k < i ==> v@[k] != sep,
        decreases v@.len() - i,
    {
        if v[i] == sep {
            proof {
                lemma_find_byte_at(v@, sep, 0, i as int);
            }
            return i;
        }
        i = i + 1;
    }
    proof {
        lemma_find_byte_at(v@, sep, 0, v@.len() as int);
    }
    i
}

/// Whether two byte strings hold the same bytes.
fn bytes_eq(a: &Vec<u8>, b: &Vec<u8>) -> (r: bool)
    ensures
        r == (a@ == b@),
{
    if a.len() != b.len() {
        return false;
    }
    let mut i: usize = 0;
    while i < a.len()
        invariant
            a@.len() == b@.len(),
            0 <= i <= a@.len(),
            forall|k: int| 0 <= k < i ==> a@[k] == b@[k],
        decreases a@.len() - i,
    {
        if a[i] != b[i] {
            return false;
        }
        i = i + 1;
    }
    proof {
        assert(a@ =~= b@);
    }
    true
}

/// One environment entry, split at its first `=`: the key, and the value,
/// which is empty when there is no `=` at all.
pub open spec fn kv_of(entry: Seq<u8>) -> (Seq<u8>, Seq<u8>) {
    let j = find_byte(entry, KV_SEP, 0);
    if j == entry.len() {
        (entry, Seq::<u8>::empty())
    } else {
        (entry.take(j), entry.skip(j + 1))
    }
}

/// All environment entries of a blob, in order.
pub open spec fn env_entries(s: Seq<u8>) -> Seq<(Seq<u8>, Seq<u8>)> {
    split_on(s, 0).map_values(|e: Seq<u8>| kv_of(e))
}

/// Splits one entry at its first `=`.
fn kv_split(entry: &Vec<u8>) -> (r: (Vec<u8>, Vec<u8>))
    ensures
        r.0@ == kv_of(entry@).0,
        r.1@ == kv_of(entry@).1,
{
    proof {
        lemma_find_byte_bounds(entry@, KV_SEP, 0);
    }
    let j = find_in(entry, KV_SEP);
    if j == entry.len() {
        proof {
            assert(entry@.subrange(0, entry@.len() as int) =~= entry@);
        }
        (take_range(entry, 0, entry.len()), Vec::new())
    } else {
        proof {
            assert(entry@.subrange(0, j as int) =~= entry@.take(j as int));
            assert(entry@.subrange(j + 1, entry@.len() as int) =~= entry@.skip(j + 1));
        }
        (take_range(entry, 0, j), take_range(entry, j + 1, entry.len()))
    }
}

/// The process's argument blob: space-separated arguments.
#[derive(Debug, PartialEq, Eq, Clone)]
pub struct ProcessArgs {
    pub bytes: Vec<u8>,
}

impl ProcessArgs {
    /// Wraps an argument blob that the embedder has already copied out of
    /// the kernel-provided memory and validated.
    pub fn new(bytes: Vec<u8>) -> (r: ProcessArgs)
        ensures
            r.bytes@ == bytes@,
    {
        ProcessArgs { bytes }
    }

    pub fn as_bytes(&self) -> (r: &Vec<u8>)
        ensures
            r@ == self.bytes@,
    {
        &self.bytes
    }

    /// The arguments, split at every space.
    pub fn as_split_bytes(&self) -> (r: Vec<Vec<u8>>)
        ensures
            r.deep_view() == split_on(self.bytes@, ARG_SEP),
    {
        split_vec(&self.bytes, ARG_SEP)
    }

    /// The first argument equal to `name`, if any: presence look-up.
    pub fn named(&self, name: &Vec<u8>) -> (r: Option<Vec<u8>>)
        ensures
            r is Some <==> exists|k: int|
                0 <= k < split_on(self.bytes@, ARG_SEP).len() && split_on(self.bytes@, ARG_SEP)[k]
                    == name@,
            r matches Some(p) ==> p@ == name@,
    {
        let pieces = self.as_split_bytes();
        let ghost spieces = split_on(self.bytes@, ARG_SEP);
        let mut i: usize = 0;
        while i < pieces.len()
            invariant
                spieces == split_on(self.bytes@, ARG_SEP),
                pieces.deep_view() == spieces,
                0 <= i <= spieces.len(),
                forall|k: int| 0 <= k < i ==> spieces[k] != name@,
            decreases spieces.len() - i,
        {
            proof {
                assert(spieces[i as int] == pieces@[i as int].deep_view());
                assert(pieces@[i as int].deep_view() =~= pieces@[i as int]@);
            }
            if bytes_eq(&pieces[i], name) {
                proof {
                    assert(0 <= i < spieces.len() && spieces[i as int] == name@);
                    assert(exists|k: int| 0 <= k < spieces.len() && spieces[k] == name@);
                }
                return Some(take_range(name, 0, name.len()));
            }
            i = i + 1;
        }
        None
    }

    /// The `n`-th argument, if there is one.
    pub fn nth(&self, n: usize) -> (r: Option<Vec<u8>>)
        ensures
            ({
                let pieces = split_on(self.bytes@, ARG_SEP);
                &&& n < pieces.len() ==> (r matches Some(p) && p@ == pieces[n as int])
                &&& n >= pieces.len() ==> r is None
            }),
    {
        let mut pieces = self.as_split_bytes();
        if n < pieces.len() {
            proof {
                assert(split_on(self.bytes@, ARG_SEP)[n as int] == pieces@[n as int].deep_view());
                assert(pieces@[n as int].deep_view() =~= pieces@[n as int]@);
            }
            let p = pieces.swap_remove(n);
            Some(p)
        } else {
            None
        }
    }
}

/// The process's environment blob: NUL-separated `key=value` entries.
#[derive(Debug, PartialEq, Eq, Clone)]
pub struct EnvVars {
    pub bytes: Vec<u8>,
}

impl EnvVars {
    /// Wraps an environment blob that the embedder has already copied out of
    /// the kernel-provided memory and validated.
    pub fn new(bytes: Vec<u8>) -> (r: EnvVars)
        ensures
            r.bytes@ == bytes@,
    {
        EnvVars { bytes }
    }

    pub fn as_bytes(&self) -> (r: &Vec<u8>)
        ensures
            r@ == self.bytes@,
    {
        &self.bytes
    }

    /// All entries, each split into its key and its value.
    pub fn as_split_bytes(&self) -> (r: Vec<(Vec<u8>, Vec<u8>)>)
        ensures
            r@.len() == env_entries(self.bytes@).len(),
            forall|k: int|
                0 <= k < r@.len() ==> (#[trigger] r@[k]).0@ == env_entries(self.bytes@)[k].0
                    && r@[k].1@ == env_entries(self.bytes@)[k].1,
    {
        let pieces = split_vec(&self.bytes, 0);
        let ghost es = env_entries(self.bytes@);
        let mut out: Vec<(Vec<u8>, Vec<u8>)> = Vec::new();
        let mut i: usize = 0;
        while i < pieces.len()
            invariant
                pieces.deep_view() == split_on(self.bytes@, 0),
                es == env_entries(self.bytes@),
                0 <= i <= pieces@.len(),
                out@.len() == i,
                forall|k: int|
                    0 <= k < i ==> (#[trigger] out@[k]).0@ == es[k].0 && out@[k].1@ == es[k].1,
            decreases pieces@.len() - i,
        {
            proof {
                assert(split_on(self.bytes@, 0)[i as int] == pieces@[i as int].deep_view());
                assert(pieces@[i as int].deep_view() =~= pieces@[i as int]@);
            }
            let kv = kv_split(&pieces[i]);
            proof {
                assert(es[i as int] == kv_of(split_on(self.bytes@, 0)[i as int]));
            }
            out.push(kv);
            i = i + 1;
        }
        out
    }

    /// Splits each entry's value at every `;`, for values that hold lists.
    pub fn separate_byte_entries(entries: Vec<(Vec<u8>, Vec<u8>)>) -> (r: Vec<
        (Vec<u8>, Vec<Vec<u8>>),
    >)
        ensures
            r@.len() == entries@.len(),
            forall|k: int|
                0 <= k < r@.len() ==> (#[trigger] r@[k]).0@ == entries@[k].0@
                    && r@[k].1.deep_view() == split_on(entries@[k].1@, LIST_SEP),
    {
        let mut out: Vec<(Vec<u8>, Vec<Vec<u8>>)> = Vec::new();
        let mut i: usize = 0;
        while i < entries.len()
            invariant
                0 <= i <= entries@.len(),
                out@.len() == i,
                forall|k: int|
                    0 <= k < i ==> (#[trigger] out@[k]).0@ == entries@[k].0@
                        && out@[k].1.deep_view() == split_on(entries@[k].1@, LIST_SEP),
            decreases entries@.len() - i,
        {
            let key = take_range(&entries[i].0, 0, entries[i].0.len());
            let vals = split_vec(&entries[i].1, LIST_SEP);
            proof {
                assert(entries@[i as int].0@.subrange(0, entries@[i as int].0@.len() as int)
                    =~= entries@[i as int].0@);
            }
            out.push((key, vals));
            i = i + 1;
        }
        out
    }

    /// The value of the first entry whose key is `var`, if any.
    pub fn get(&self, var: &Vec<u8>) -> (r: Option<Vec<u8>>)
        ensures
            ({
                let es = env_entries(self.bytes@);
                &&& (r is Some <==> exists|k: int| 0 <= k < es.len() && (#[trigger] es[k]).0
                    == var@)
                &&& (r matches Some(v) ==> exists|k: int|
                    0 <= k < es.len() && (#[trigger] es[k]).0 == var@ && v@ == es[k].1 && forall|
                        t: int,
                    | 0 <= t < k ==> es[t].0 != var@)
            }),
    {
        let pairs = self.as_split_bytes();
        let ghost es = env_entries(self.bytes@);
        let mut i: usize = 0;
        while i < pairs.len()
            invariant
                pairs@.len() == es.len(),
                es == env_entries(self.bytes@),
                forall|k: int|
                    0 <= k < pairs@.len() ==> (#[trigger] pairs@[k]).0@ == es[k].0 && pairs@[k].1@
                        == es[k].1,
                0 <= i <= es.len(),
                forall|t: int| 0 <= t < i ==> (#[trigger] es[t]).0 != var@,
            decreases es.len() - i,
        {
            if bytes_eq(&pairs[i].0, var) {
                proof {
                    assert((es[i as int]).0 == var@);
                }
                return Some(take_range(&pairs[i].1, 0, pairs[i].1.len()));
            }
            i = i + 1;
        }
        None
    }
}

/// What the runtime keeps from process start-up: the argument and
/// environment blobs, either of which the kernel may have withheld.
pub struct RuntimeData {
    pub args: Option<ProcessArgs>,
    pub env: Option<EnvVars>,
}

impl RuntimeData {
    /// Built once at process start from the blobs the embedder copied in.
    pub fn new(args: Option<ProcessArgs>, env: Option<EnvVars>) -> (r: RuntimeData)
        ensures
            r.args == args,
            r.env == env,
    {
        RuntimeData { args, env }
    }

    pub fn env(&self) -> (r: Option<&EnvVars>)
        ensures
            match r {
                Some(e) => self.env matches Some(e2) && e == e2,
                None => self.env is None,
            },
    {
        match &self.env {
            Some(e) => Some(e),
            None => None,
        }
    }

    pub fn args(&self) -> (r: Option<&ProcessArgs>)
        ensures
            match r {
                Some(a) => self.args matches Some(a2) && a == a2,
                None => self.args is None,
            },
    {
        match &self.args {
            Some(a) => Some(a),
            None => None,
        }
    }
}

} // verus!
