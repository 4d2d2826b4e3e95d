//! Parameter sets and the region-list calling convention.
//!
//! A `ParameterSet` is an ordered mapping of `Val` keys to `Val` values with
//! no repeated key.  `encode` flattens it into the region list the kernel
//! calls expect: for each pair, the key's byte image immediately followed by
//! the value's.  After a fetch call the kernel has rewritten the value
//! regions; `refill_values` rebuilds the set from those bytes and
//! `decode_all` turns it into named output values.

use vstd::prelude::*;

use crate::errors::{ErrModel, LibJailError};
use crate::text::bytes_eq;
use crate::value::{
    spec_decode, spec_refill, spec_val_bytes, spec_val_string, val_wf, OutVal, OutValModel, Val,
    ValModel,
};

verus! {

/// No key occurs twice.
pub open spec fn keys_unique(s: Seq<(ValModel, ValModel)>) -> bool {
    forall|i: int, j: int| 0 <= i < j < s.len() ==> (#[trigger] s[i]).0 != (#[trigger] s[j]).0
}

/// Every key and value is well-formed.
pub open spec fn entries_wf(s: Seq<(ValModel, ValModel)>) -> bool {
    forall|i: int|
        0 <= i < s.len() ==> val_wf((#[trigger] s[i]).0) && val_wf(s[i].1)
}

/// A key is present.
pub open spec fn has_key(s: Seq<(ValModel, ValModel)>, k: ValModel) -> bool {
    exists|i: int| 0 <= i < s.len() && (#[trigger] s[i]).0 == k
}

/// The index of the first entry with the given key.
pub open spec fn spec_find(s: Seq<(ValModel, ValModel)>, k: ValModel) -> Option<int>
    decreases s.len(),
{
    if s.len() == 0 {
        None
    } else if s[0].0 == k {
        Some(0)
    } else {
        match spec_find(s.drop_first(), k) {
            Some(i) => Some(i + 1),
            None => None,
        }
    }
}

/// The value stored under a key, if any.
pub open spec fn spec_lookup(s: Seq<(ValModel, ValModel)>, k: ValModel) -> Option<ValModel>
    decreases s.len(),
{
    if s.len() == 0 {
        None
    } else if s[0].0 == k {
        Some(s[0].1)
    } else {
        spec_lookup(s.drop_first(), k)
    }
}

/// Store a value under a key: replaces the first matching key's value, or
/// appends a new pair.
pub open spec fn spec_insert(s: Seq<(ValModel, ValModel)>, k: ValModel, v: ValModel) -> Seq<
    (ValModel, ValModel),
> {
    match spec_find(s, k) {
        Some(i) => s.update(i, (k, v)),
        None => s.push((k, v)),
    }
}

/// Which keys an insert leaves present.
pub proof fn lemma_insert_has_key(s: Seq<(ValModel, ValModel)>, k: ValModel, v: ValModel, k2: ValModel)
    ensures
        has_key(spec_insert(s, k, v), k2) <==> (k2 == k || has_key(s, k2)),
{
    lemma_spec_find_props(s, k);
    let r = spec_insert(s, k, v);
    match spec_find(s, k) {
        Some(i) => {
            if has_key(r, k2) {
                let j = choose|j: int| 0 <= j < r.len() && (#[trigger] r[j]).0 == k2;
                if j != i {
                    assert(s[j].0 == k2);
                }
            }
            if k2 == k {
                assert(r[i].0 == k2);
            } else if has_key(s, k2) {
                let j = choose|j: int| 0 <= j < s.len() && (#[trigger] s[j]).0 == k2;
                assert(j != i);
                assert(r[j].0 == k2);
            }
        },
        None => {
            if has_key(r, k2) {
                let j = choose|j: int| 0 <= j < r.len() && (#[trigger] r[j]).0 == k2;
                if j < s.len() {
                    assert(s[j].0 == k2);
                }
            }
            if k2 == k {
                assert(r[s.len() as int].0 == k2);
            } else if has_key(s, k2) {
                let j = choose|j: int| 0 <= j < s.len() && (#[trigger] s[j]).0 == k2;
                assert(r[j].0 == k2);
            }
        },
    }
}

/// `spec_find` finds exactly the first index whose key matches.
pub proof fn lemma_spec_find_at(s: Seq<(ValModel, ValModel)>, k: ValModel, i: int)
    requires
        0 <= i <= s.len(),
        forall|j: int| 0 <= j < i ==> (#[trigger] s[j]).0 != k,
        i < s.len() ==> s[i].0 == k,
    ensures
        i < s.len() ==> spec_find(s, k) == Some(i),
        i == s.len() ==> spec_find(s, k) is None,
    decreases s.len(),
{
    if s.len() > 0 && s[0].0 != k {
        assert(i > 0);
        assert forall|j: int| 0 <= j < i - 1 implies (#[trigger] s.drop_first()[j]).0 != k by {
            assert(s.drop_first()[j] == s[j + 1]);
        }
        lemma_spec_find_at(s.drop_first(), k, i - 1);
    }
}

/// What `spec_find` returns is a matching index with no match before it,
/// and a `None` means the key is absent; the lookup reads that entry.
pub proof fn lemma_spec_find_props(s: Seq<(ValModel, ValModel)>, k: ValModel)
    ensures
        spec_find(s, k) matches Some(i) ==> 0 <= i < s.len() && s[i].0 == k && spec_lookup(s, k)
            == Some(s[i].1) && (forall|j: int| 0 <= j < i ==> (#[trigger] s[j]).0 != k),
        spec_find(s, k) is None ==> !has_key(s, k) && spec_lookup(s, k) is None,
    decreases s.len(),
{
    if s.len() > 0 && s[0].0 != k {
        lemma_spec_find_props(s.drop_first(), k);
        if spec_find(s.drop_first(), k) is Some {
            let i = spec_find(s.drop_first(), k)->Some_0;
            assert forall|j: int| 0 <= j < i + 1 implies (#[trigger] s[j]).0 != k by {
                if j > 0 {
                    assert(s.drop_first()[j - 1] == s[j]);
                }
            }
            assert(s[i + 1] == s.drop_first()[i]);
        } else {
            assert forall|j: int| 0 <= j < s.len() implies (#[trigger] s[j]).0 != k by {
                if j > 0 {
                    assert(s.drop_first()[j - 1] == s[j]);
                }
            }
            assert(!has_key(s, k));
        }
    }
}

/// Model equality of two values.
pub fn val_eq(a: &Val, b: &Val) -> (r: bool)
    ensures
        r <==> a@ == b@,
{
    match (a, b) {
        (Val::Buffer(x), Val::Buffer(y)) => bytes_eq(x, y),
        (Val::CString(x), Val::CString(y)) => bytes_eq(x, y),
        (Val::I32(x), Val::I32(y)) => *x == *y,
        (Val::U32(x), Val::U32(y)) => *x == *y,
        (Val::U64(x), Val::U64(y)) => *x == *y,
        (Val::U128(x), Val::U128(y)) => *x == *y,
        (Val::Bool(x), Val::Bool(y)) => *x == *y,
        (Val::Ip4(x), Val::Ip4(y)) => *x == *y,
        (Val::Ip6(x), Val::Ip6(y)) => *x == *y,
        (Val::Null, Val::Null) => true,
        _ => false,
    }
}

/// An ordered mapping of parameter keys to parameter values with no
/// repeated key.
#[derive(Debug)]
pub struct ParameterSet {
    entries: Vec<(Val, Val)>,
}

impl View for ParameterSet {
    type V = Seq<(ValModel, ValModel)>;

    closed spec fn view(&self) -> Seq<(ValModel, ValModel)> {
        Seq::new(self.entries@.len(), |i: int| (self.entries@[i].0@, self.entries@[i].1@))
    }
}

impl ParameterSet {
    /// Well-formed: unique keys, well-formed keys and values.
    pub open spec fn wf(&self) -> bool {
        keys_unique(self@) && entries_wf(self@)
    }

    /// The empty parameter set.
    pub fn new() -> (r: ParameterSet)
        ensures
            r@ == Seq::<(ValModel, ValModel)>::empty(),
            r.wf(),
    {
        let r = ParameterSet { entries: Vec::new() };
        proof {
            assert(r@ =~= Seq::<(ValModel, ValModel)>::empty());
        }
        r
    }

    /// How many pairs the set holds.
    pub fn len(&self) -> (r: usize)
        ensures
            r == self@.len(),
    {
        self.entries.len()
    }

    /// The key of the pair at an index.
    pub fn key_at(&self, i: usize) -> (r: &Val)
        requires
            i < self@.len(),
        ensures
            r@ == self@[i as int].0,
    {
        &self.entries[i].0
    }

    /// The value of the pair at an index.
    pub fn val_at(&self, i: usize) -> (r: &Val)
        requires
            i < self@.len(),
        ensures
            r@ == self@[i as int].1,
    {
        &self.entries[i].1
    }

    /// Store a value under a key: replaces the first matching key's value,
    /// or appends a new pair.
    pub fn insert(&mut self, k: Val, v: Val)
        requires
            old(self).wf(),
            val_wf(k@),
            val_wf(v@),
        ensures
            final(self).wf(),
            final(self)@ =~= spec_insert(old(self)@, k@, v@),
            spec_lookup(final(self)@, k@) == Some(v@),
    {
        let ghost k_model = k@;
        let ghost v_model = v@;
        let mut i: usize = 0;
        while i < self.entries.len()
            invariant
                i <= self@.len(),
                self@ == old(self)@,
                self.wf(),
                forall|j: int| 0 <= j < i ==> (#[trigger] self@[j]).0 != k_model,
                k@ == k_model,
                v@ == v_model,
                val_wf(k_model),
                val_wf(v_model),
            decreases self@.len() - i,
        {
            if val_eq(&self.entries[i].0, &k) {
                proof {
                    lemma_spec_find_at(self@, k_model, i as int);
                }
                let ghost before = self@;
                self.entries.set(i, (k, v));
                proof {
                    assert(self@ =~= before.update(i as int, (k_model, v_model)));
                    assert(keys_unique(self@)) by {
                        assert forall|p: int, q: int| 0 <= p < q < self@.len() implies (
                        #[trigger] self@[p]).0 != (#[trigger] self@[q]).0 by {
                            assert(self@[p].0 == before[p].0 && self@[q].0 == before[q].0);
                        }
                    }
                    assert(entries_wf(self@)) by {
                        assert forall|p: int| 0 <= p < self@.len() implies val_wf(
                            (#[trigger] self@[p]).0,
                        ) && val_wf(self@[p].1) by {
                            if p != i {
                                assert(self@[p] == before[p]);
                            }
                        }
                    }
                    lemma_spec_find_at(self@, k_model, i as int);
                    lemma_spec_find_props(self@, k_model);
                }
                return ;
            }
            i = i + 1;
        }
        proof {
            lemma_spec_find_at(self@, k_model, i as int);
        }
        let ghost before = self@;
        self.entries.push((k, v));
        proof {
            assert(self@ =~= before.push((k_model, v_model)));
            assert(keys_unique(self@)) by {
                assert forall|p: int, q: int| 0 <= p < q < self@.len() implies (
                #[trigger] self@[p]).0 != (#[trigger] self@[q]).0 by {
                    if q < before.len() {
                        assert(self@[p] == before[p] && self@[q] == before[q]);
                    } else {
                        assert(self@[q].0 == k_model);
                        assert(self@[p] == before[p]);
                    }
                }
            }
            assert(entries_wf(self@)) by {
                assert forall|p: int| 0 <= p < self@.len() implies val_wf(
                    (#[trigger] self@[p]).0,
                ) && val_wf(self@[p].1) by {
                    if p < before.len() {
                        assert(self@[p] == before[p]);
                    }
                }
            }
            lemma_spec_find_at(self@, k_model, i as int);
            lemma_spec_find_props(self@, k_model);
        }
    }

    /// The value stored under a key, if any.
    pub fn get(&self, k: &Val) -> (r: Option<&Val>)
        ensures
            match r {
                Some(v) => spec_lookup(self@, k@) == Some(v@),
                None => spec_lookup(self@, k@) is None,
            },
    {
        let mut i: usize = 0;
        while i < self.entries.len()
            invariant
                i <= self@.len(),
                forall|j: int| 0 <= j < i ==> (#[trigger] self@[j]).0 != k@,
            decreases self@.len() - i,
        {
            if val_eq(&self.entries[i].0, k) {
                proof {
                    lemma_spec_find_at(self@, k@, i as int);
                    lemma_spec_find_props(self@, k@);
                }
                return Some(&self.entries[i].1);
            }
            i = i + 1;
        }
        proof {
            lemma_spec_find_at(self@, k@, i as int);
            lemma_spec_find_props(self@, k@);
        }
        None
    }
}

impl ParameterSet {
    /// Rebuild the set from the value bytes the kernel handed back, one
    /// buffer per pair, keys untouched.
    ///
    /// Fails exactly when the buffer count differs from the pair count or
    /// some buffer does not fit its value's shape.
    pub fn refill_values(&self, new_bytes: &Vec<Vec<u8>>) -> (r: Result<
        ParameterSet,
        LibJailError,
    >)
        requires
            self.wf(),
        ensures
            r is Ok <==> (new_bytes@.len() == self@.len() && (forall|i: int|
                0 <= i < self@.len() ==> spec_refill(
                    (#[trigger] self@[i]).1,
                    new_bytes@[i]@,
                ) is Some)),
            r matches Ok(ps) ==> ps@.len() == self@.len() && ps.wf() && (forall|i: int|
                0 <= i < self@.len() ==> (#[trigger] ps@[i]).0 == self@[i].0 && spec_refill(
                    self@[i].1,
                    new_bytes@[i]@,
                ) == Some(ps@[i].1)),
            r is Err ==> r == Err::<ParameterSet, LibJailError>(LibJailError::MismatchCtlValue),
    {
        if new_bytes.len() != self.len() {
            return Err(LibJailError::MismatchCtlValue);
        }
        let mut entries: Vec<(Val, Val)> = Vec::new();
        let n = self.len();
        let mut i: usize = 0;
        while i < n
            invariant
                i <= self@.len(),
                n == self@.len(),
                new_bytes@.len() == self@.len(),
                self.wf(),
                entries@.len() == i,
                forall|j: int|
                    0 <= j < i ==> (#[trigger] entries@[j]).0@ == self@[j].0 && spec_refill(
                        self@[j].1,
                        new_bytes@[j]@,
                    ) == Some(entries@[j].1@) && val_wf(entries@[j].1@),
            decreases n - i,
        {
            let key = self.key_at(i).duplicate();
            match self.val_at(i).refill(&new_bytes[i]) {
                Ok(v) => {
                    entries.push((key, v));
                },
                Err(_) => {
                    proof {
                        assert(spec_refill((self@[i as int]).1, new_bytes@[i as int]@) is None);
                    }
                    return Err(LibJailError::MismatchCtlValue);
                },
            }
            i = i + 1;
        }
        let ps = ParameterSet { entries };
        proof {
            assert(ps@.len() == self@.len());
            assert forall|p: int| 0 <= p < self@.len() implies spec_refill(
                (#[trigger] self@[p]).1,
                new_bytes@[p]@,
            ) is Some by {
                assert(spec_refill(self@[p].1, new_bytes@[p]@) == Some(ps.entries@[p].1@));
            }
            assert forall|p: int| 0 <= p < ps@.len() implies (#[trigger] ps@[p]).0 == self@[p].0
                && spec_refill(self@[p].1, new_bytes@[p]@) == Some(ps@[p].1) by {
                assert(ps@[p].0 == ps.entries@[p].0@);
            }
            assert(keys_unique(ps@)) by {
                assert forall|p: int, q: int| 0 <= p < q < ps@.len() implies (
                #[trigger] ps@[p]).0 != (#[trigger] ps@[q]).0 by {
                    assert(ps@[p].0 == self@[p].0 && ps@[q].0 == self@[q].0);
                }
            }
            assert(entries_wf(ps@)) by {
                assert forall|p: int| 0 <= p < ps@.len() implies val_wf((#[trigger] ps@[p]).0)
                    && val_wf(ps@[p].1) by {
                    assert(ps@[p].0 == self@[p].0);
                    assert(val_wf(self@[p].0));
                }
            }
        }
        Ok(ps)
    }

    /// Decode every pair: keys render as text, values decode to output
    /// values, in pair order.
    pub fn decode_all(&self) -> (r: Result<Vec<(String, OutVal)>, LibJailError>)
        ensures
            r is Ok <==> (forall|i: int|
                0 <= i < self@.len() ==> spec_val_string((#[trigger] self@[i]).0) is Ok
                    && spec_decode(self@[i].1) is Ok),
            r matches Ok(out) ==> out@.len() == self@.len() && (forall|i: int|
                0 <= i < self@.len() ==> spec_val_string((#[trigger] self@[i]).0) == Ok::<
                    Seq<char>,
                    ErrModel,
                >(out@[i].0@) && spec_decode(self@[i].1) == Ok::<OutValModel, ErrModel>(
                    out@[i].1@,
                )),
            r matches Err(e) ==> exists|i: int|
                0 <= i < self@.len() && (spec_val_string((#[trigger] self@[i]).0) == Err::<
                    Seq<char>,
                    ErrModel,
                >(e@) || (spec_val_string(self@[i].0) is Ok && spec_decode(self@[i].1) == Err::<
                    OutValModel,
                    ErrModel,
                >(e@))),
    {
        let mut out: Vec<(String, OutVal)> = Vec::new();
        let n = self.len();
        let mut i: usize = 0;
        while i < n
            invariant
                i <= self@.len(),
                n == self@.len(),
                out@.len() == i,
                forall|j: int|
                    0 <= j < i ==> spec_val_string((#[trigger] self@[j]).0) == Ok::<
                        Seq<char>,
                        ErrModel,
                    >(out@[j].0@) && spec_decode(self@[j].1) == Ok::<OutValModel, ErrModel>(
                        out@[j].1@,
                    ),
            decreases n - i,
        {
            let name = match self.key_at(i).into_string() {
                Ok(s) => s,
                Err(e) => {
                    return Err(e);
                },
            };
            let value = match self.val_at(i).decode() {
                Ok(o) => o,
                Err(e) => {
                    return Err(e);
                },
            };
            out.push((name, value));
            i = i + 1;
        }
        Ok(out)
    }
}

/// The byte-sequence models of a list of buffers.
pub open spec fn bytes_views(bs: Seq<Vec<u8>>) -> Seq<Seq<u8>> {
    Seq::new(bs.len(), |i: int| bs[i]@)
}

/// What rebuilding a whole set from returned value buffers yields: every
/// buffer must fit its value's shape, keys stay as they were.
pub open spec fn spec_refill_all(s: Seq<(ValModel, ValModel)>, bytes: Seq<Seq<u8>>) -> Option<
    Seq<(ValModel, ValModel)>,
> {
    if bytes.len() == s.len() && (forall|i: int|
        0 <= i < s.len() ==> spec_refill((#[trigger] s[i]).1, bytes[i]) is Some) {
        Some(Seq::new(s.len(), |i: int| (s[i].0, spec_refill(s[i].1, bytes[i])->Some_0)))
    } else {
        None
    }
}

/// What decoding a whole set yields: every key must render as text and
/// every value must decode.
pub open spec fn spec_decode_all(s: Seq<(ValModel, ValModel)>) -> Option<
    Seq<(Seq<char>, OutValModel)>,
> {
    if forall|i: int|
        0 <= i < s.len() ==> spec_val_string((#[trigger] s[i]).0) is Ok && spec_decode(
            s[i].1,
        ) is Ok {
        Some(
            Seq::new(
                s.len(),
                |i: int| (spec_val_string(s[i].0)->Ok_0, spec_decode(s[i].1)->Ok_0),
            ),
        )
    } else {
        None
    }
}

/// One entry of the region list: the bytes the kernel sees, and whether
/// the region's base pointer is the null pointer (the zero-length
/// placeholder encodes as a null region).
pub struct Region {
    pub bytes: Vec<u8>,
    pub null_base: bool,
}

/// The region of one value.
pub fn to_region(v: &Val) -> (r: Region)
    ensures
        r.bytes@ == spec_val_bytes(v@),
        r.null_base == (v@ is Null),
{
    let null_base = match v {
        Val::Null => true,
        _ => false,
    };
    Region { bytes: v.to_bytes(), null_base }
}

/// Flatten a parameter set into its region list: for each pair, in order,
/// the key's region immediately followed by the value's region.
pub fn encode(ps: &ParameterSet) -> (r: Vec<Region>)
    ensures
        r@.len() == 2 * ps@.len(),
        forall|i: int|
            0 <= i < ps@.len() ==> (#[trigger] r@[2 * i]).bytes@ == spec_val_bytes(ps@[i].0)
                && r@[2 * i].null_base == (ps@[i].0 is Null) && r@[2 * i + 1].bytes@
                == spec_val_bytes(ps@[i].1) && r@[2 * i + 1].null_base == (ps@[i].1 is Null),
{
    let mut r: Vec<Region> = Vec::new();
    let n = ps.len();
    let mut i: usize = 0;
    while i < n
        invariant
            i <= ps@.len(),
            n == ps@.len(),
            r@.len() == 2 * i,
            forall|j: int|
                0 <= j < i ==> (#[trigger] r@[2 * j]).bytes@ == spec_val_bytes(ps@[j].0)
                    && r@[2 * j].null_base == (ps@[j].0 is Null) && r@[2 * j + 1].bytes@
                    == spec_val_bytes(ps@[j].1) && r@[2 * j + 1].null_base == (ps@[j].1 is Null),
        decreases n - i,
    {
        let ghost prev = r@;
        r.push(to_region(ps.key_at(i)));
        r.push(to_region(ps.val_at(i)));
        i = i + 1;
        proof {
            assert forall|j: int|
                0 <= j < i implies (#[trigger] r@[2 * j]).bytes@ == spec_val_bytes(ps@[j].0)
                && r@[2 * j].null_base == (ps@[j].0 is Null) && r@[2 * j + 1].bytes@
                == spec_val_bytes(ps@[j].1) && r@[2 * j + 1].null_base == (ps@[j].1 is Null) by {
                if j < i - 1 {
                    assert(r@[2 * j] == prev[2 * j]);
                    assert(r@[2 * j + 1] == prev[2 * j + 1]);
                } else {
                    assert(r@[2 * j] == r@[prev.len() as int]);
                    assert(r@[2 * j + 1] == r@[prev.len() as int + 1]);
                }
            }
        }
    }
    r
}

} // verus!
