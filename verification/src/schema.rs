//! Schema discovery: the kernel's jail-parameter namespace.
//!
//! Every jail parameter is described by a sysctl leaf below the
//! jail-parameter prefix.  A leaf's full name strips to a bare parameter
//! name; its reported primitive type classifies to a [`RuleType`], with the
//! two address parameters force-mapped because the generic type system
//! reports them as opaque structures.

use sysctl::Sysctl;
use vstd::prelude::*;
use vstd::utf8::{encode_utf8, is_ascii_chars, is_ascii_chars_encode_utf8};

use crate::errors::{ErrModel, LibJailError, SchemaFail};
use crate::text::{all_ascii, ascii_chars_of, bytes_eq, str_bytes, str_eq, string_of_ascii};

verus! {

/// The semantic type of a jail parameter.
#[derive(Clone, Copy, Debug, PartialEq, Eq, Hash, Structural)]
pub enum RuleType {
    Int,
    Ulong,
    Ip4,
    Ip6,
    String,
    Unknown,
}

/// Type codes used between the sysctl wrappers and the verified logic:
/// 1 integer, 2 unsigned long, 3 string, 4 opaque struct, anything else
/// unclassified.
pub open spec fn spec_code_rule(code: u8) -> RuleType {
    if code == 1 {
        RuleType::Int
    } else if code == 2 {
        RuleType::Ulong
    } else if code == 3 {
        RuleType::String
    } else {
        RuleType::Unknown
    }
}

/// The jail-parameter sysctl prefix, as bytes.
pub open spec fn spec_prefix_bytes() -> Seq<u8> {
    encode_utf8("security.jail.param"@)
}

/// The full name with the prefix removed, when it starts with the prefix.
pub open spec fn spec_strip_prefix(b: Seq<u8>) -> Seq<u8> {
    if b.len() >= spec_prefix_bytes().len() && b.take(spec_prefix_bytes().len() as int)
        == spec_prefix_bytes() {
        b.skip(spec_prefix_bytes().len() as int)
    } else {
        b
    }
}

/// Leading separator dots removed.
pub open spec fn spec_trim_leading(b: Seq<u8>) -> Seq<u8>
    decreases b.len(),
{
    if b.len() > 0 && b[0] == 0x2e {
        spec_trim_leading(b.drop_first())
    } else {
        b
    }
}

/// Trailing separator dots removed.
pub open spec fn spec_trim_trailing(b: Seq<u8>) -> Seq<u8>
    decreases b.len(),
{
    if b.len() > 0 && b.last() == 0x2e {
        spec_trim_trailing(b.drop_last())
    } else {
        b
    }
}

/// The bare parameter name of a full sysctl leaf name: prefix stripped,
/// surrounding dots trimmed.
pub open spec fn spec_bare_name(b: Seq<u8>) -> Seq<u8> {
    spec_trim_trailing(spec_trim_leading(spec_strip_prefix(b)))
}

/// Trimming the lead stops at the first non-dot byte.
proof fn lemma_trim_leading_at(s: Seq<u8>, k: int)
    requires
        0 <= k <= s.len(),
        forall|j: int| 0 <= j < k ==> s[j] == 0x2e,
        k < s.len() ==> s[k] != 0x2e,
    ensures
        spec_trim_leading(s) == s.skip(k),
    decreases k,
{
    if k == 0 {
        assert(s.skip(0) =~= s);
    } else {
        assert(s[0] == 0x2e);
        let t = s.drop_first();
        assert forall|j: int| 0 <= j < k - 1 implies t[j] == 0x2e by {
            assert(t[j] == s[j + 1]);
        }
        lemma_trim_leading_at(t, k - 1);
        assert(t.skip(k - 1) =~= s.skip(k));
    }
}

/// Trimming the tail stops at the last non-dot byte.
proof fn lemma_trim_trailing_at(s: Seq<u8>, k: int)
    requires
        0 <= k <= s.len(),
        forall|j: int| k <= j < s.len() ==> s[j] == 0x2e,
        k > 0 ==> s[k - 1] != 0x2e,
    ensures
        spec_trim_trailing(s) == s.take(k),
    decreases s.len(),
{
    if k == s.len() {
        if s.len() > 0 {
            assert(s.take(k) =~= s);
        } else {
            assert(s.take(0) =~= s);
        }
    } else {
        assert(s.last() == 0x2e);
        let t = s.drop_last();
        lemma_trim_trailing_at(t, k);
        assert(t.take(k) =~= s.take(k));
    }
}

/// The bare parameter name of a full leaf name given as bytes.
pub fn bare_name_vec(b: &Vec<u8>) -> (r: Vec<u8>)
    ensures
        r@ == spec_bare_name(b@),
{
    let p = str_bytes("security.jail.param");
    let plen = p.len();
    let mut start: usize = 0;
    if b.len() >= plen {
        let mut same = true;
        let mut i: usize = 0;
        while i < plen
            invariant
                i <= plen,
                plen == spec_prefix_bytes().len(),
                plen <= b@.len(),
                p@ == spec_prefix_bytes(),
                same <==> (forall|j: int| 0 <= j < i ==> b@[j] == spec_prefix_bytes()[j]),
            decreases plen - i,
        {
            if b[i] != p[i] {
                same = false;
            }
            i = i + 1;
        }
        if same {
            start = plen;
            proof {
                assert(b@.take(plen as int) =~= spec_prefix_bytes());
            }
        } else {
            proof {
                assert(b@.take(plen as int) != spec_prefix_bytes()) by {
                    let j = choose|j: int|
                        0 <= j < plen && b@[j] != spec_prefix_bytes()[j];
                    assert(b@.take(plen as int)[j] == b@[j]);
                }
            }
        }
    }
    let ghost stripped = spec_strip_prefix(b@);
    proof {
        assert(stripped =~= b@.skip(start as int));
    }
    let mut lo: usize = start;
    while lo < b.len() && b[lo] == 0x2e
        invariant
            start <= lo <= b@.len(),
            stripped =~= b@.skip(start as int),
            forall|j: int| start <= j < lo ==> b@[j] == 0x2e,
        decreases b@.len() - lo,
    {
        lo = lo + 1;
    }
    let ghost led = spec_trim_leading(stripped);
    proof {
        assert forall|j: int| 0 <= j < lo - start implies stripped[j] == 0x2e by {
            assert(stripped[j] == b@[start + j]);
        }
        if lo < b@.len() {
            assert(stripped[lo - start] == b@[lo as int]);
        }
        lemma_trim_leading_at(stripped, lo - start);
        assert(led =~= b@.skip(lo as int));
    }
    let mut hi: usize = b.len();
    while hi > lo && b[hi - 1] == 0x2e
        invariant
            lo <= hi <= b@.len(),
            forall|j: int| hi <= j < b@.len() ==> b@[j] == 0x2e,
        decreases hi,
    {
        hi = hi - 1;
    }
    proof {
        assert forall|j: int| hi - lo <= j < led.len() implies led[j] == 0x2e by {
            assert(led[j] == b@[lo + j]);
        }
        if hi > lo {
            assert(led[hi - lo - 1] == b@[hi - 1]);
        }
        lemma_trim_trailing_at(led, hi - lo);
    }
    let mut out: Vec<u8> = Vec::new();
    let mut j: usize = lo;
    while j < hi
        invariant
            lo <= j <= hi <= b@.len(),
            out@ =~= b@.subrange(lo as int, j as int),
        decreases hi - j,
    {
        out.push(b[j]);
        j = j + 1;
        proof {
            assert(out@ =~= b@.subrange(lo as int, j as int));
        }
    }
    proof {
        assert(spec_bare_name(b@) == led.take(hi - lo));
        assert(led.take(hi - lo) =~= b@.subrange(lo as int, hi as int));
    }
    out
}

/// Classify a bare parameter name and its reported type code.
///
/// The two address parameters override the reported type; otherwise the
/// code decides.
pub open spec fn spec_classify(bare: Seq<u8>, code: u8) -> RuleType {
    if bare == encode_utf8("ip4.addr"@) {
        RuleType::Ip4
    } else if bare == encode_utf8("ip6.addr"@) {
        RuleType::Ip6
    } else {
        spec_code_rule(code)
    }
}

/// Classify a bare parameter name and its reported type code.
pub fn classify(bare: &Vec<u8>, code: u8) -> (r: RuleType)
    ensures
        r == spec_classify(bare@, code),
{
    let ip4 = str_bytes("ip4.addr");
    let ip6 = str_bytes("ip6.addr");
    if bytes_eq(bare, &ip4) {
        RuleType::Ip4
    } else if bytes_eq(bare, &ip6) {
        RuleType::Ip6
    } else if code == 1 {
        RuleType::Int
    } else if code == 2 {
        RuleType::Ulong
    } else if code == 3 {
        RuleType::String
    } else {
        RuleType::Unknown
    }
}

/// ASCII survives the bare-name transformation.
pub proof fn lemma_bare_ascii(b: Seq<u8>)
    requires
        all_ascii(b),
    ensures
        all_ascii(spec_bare_name(b)),
{
    let s = spec_strip_prefix(b);
    assert(all_ascii(s)) by {
        assert forall|i: int| 0 <= i < s.len() implies s[i] < 0x80 by {
            if b.len() >= spec_prefix_bytes().len() && b.take(spec_prefix_bytes().len() as int)
                == spec_prefix_bytes() {
                assert(s[i] == b[i + spec_prefix_bytes().len()]);
            }
        }
    }
    lemma_trim_leading_ascii(s);
    lemma_trim_trailing_ascii(spec_trim_leading(s));
}

/// ASCII survives leading-dot trimming.
proof fn lemma_trim_leading_ascii(s: Seq<u8>)
    requires
        all_ascii(s),
    ensures
        all_ascii(spec_trim_leading(s)),
    decreases s.len(),
{
    if s.len() > 0 && s[0] == 0x2e {
        assert(all_ascii(s.drop_first())) by {
            assert forall|i: int| 0 <= i < s.drop_first().len() implies s.drop_first()[i]
                < 0x80 by {
                assert(s.drop_first()[i] == s[i + 1]);
            }
        }
        lemma_trim_leading_ascii(s.drop_first());
    }
}

/// ASCII survives trailing-dot trimming.
proof fn lemma_trim_trailing_ascii(s: Seq<u8>)
    requires
        all_ascii(s),
    ensures
        all_ascii(spec_trim_trailing(s)),
    decreases s.len(),
{
    if s.len() > 0 && s.last() == 0x2e {
        assert(all_ascii(s.drop_last())) by {
            assert forall|i: int| 0 <= i < s.drop_last().len() implies s.drop_last()[i] < 0x80 by {
                assert(s.drop_last()[i] == s[i]);
            }
        }
        lemma_trim_trailing_ascii(s.drop_last());
    }
}

/// A leaf is usable when its name is ASCII and strips to a non-empty bare
/// name.
pub open spec fn leaf_ok(name: Seq<char>) -> bool {
    is_ascii_chars(name) && spec_bare_name(encode_utf8(name)).len() > 0
}

/// The bare parameter name of a leaf, as characters.
pub open spec fn spec_bare_chars(name: Seq<char>) -> Seq<char> {
    ascii_chars_of(spec_bare_name(encode_utf8(name)))
}

/// The index of the first registry entry with the given name.
pub open spec fn reg_find(s: Seq<(Seq<char>, RuleType)>, k: Seq<char>) -> Option<int>
    decreases s.len(),
{
    if s.len() == 0 {
        None
    } else if s[0].0 == k {
        Some(0)
    } else {
        match reg_find(s.drop_first(), k) {
            Some(i) => Some(i + 1),
            None => None,
        }
    }
}

/// The rule type registered under a name, if any.
pub open spec fn reg_lookup(s: Seq<(Seq<char>, RuleType)>, k: Seq<char>) -> Option<RuleType>
    decreases s.len(),
{
    if s.len() == 0 {
        None
    } else if s[0].0 == k {
        Some(s[0].1)
    } else {
        reg_lookup(s.drop_first(), k)
    }
}

/// A name is registered.
pub open spec fn reg_has(s: Seq<(Seq<char>, RuleType)>, k: Seq<char>) -> bool {
    exists|i: int| 0 <= i < s.len() && (#[trigger] s[i]).0 == k
}

/// Store a rule type under a name: replaces the first matching entry, or
/// appends.
pub open spec fn reg_insert(s: Seq<(Seq<char>, RuleType)>, k: Seq<char>, t: RuleType) -> Seq<
    (Seq<char>, RuleType),
> {
    match reg_find(s, k) {
        Some(i) => s.update(i, (k, t)),
        None => s.push((k, t)),
    }
}

/// No registered name occurs twice.
pub open spec fn reg_names_unique(s: Seq<(Seq<char>, RuleType)>) -> bool {
    forall|i: int, j: int| 0 <= i < j < s.len() ==> (#[trigger] s[i]).0 != (#[trigger] s[j]).0
}

/// `reg_find` finds exactly the first index whose name matches.
proof fn lemma_reg_find_at(s: Seq<(Seq<char>, RuleType)>, k: Seq<char>, i: int)
    requires
        0 <= i <= s.len(),
        forall|j: int| 0 <= j < i ==> (#[trigger] s[j]).0 != k,
        i < s.len() ==> s[i].0 == k,
    ensures
        i < s.len() ==> reg_find(s, k) == Some(i),
        i == s.len() ==> reg_find(s, k) is None,
    decreases s.len(),
{
    if s.len() > 0 && s[0].0 != k {
        assert(i > 0);
        assert forall|j: int| 0 <= j < i - 1 implies (#[trigger] s.drop_first()[j]).0 != k by {
            assert(s.drop_first()[j] == s[j + 1]);
        }
        lemma_reg_find_at(s.drop_first(), k, i - 1);
    }
}

/// What `reg_find` returns is a matching index with no match before it;
/// `None` means the name is absent; the lookup reads that entry.
pub proof fn lemma_reg_find_props(s: Seq<(Seq<char>, RuleType)>, k: Seq<char>)
    ensures
        reg_find(s, k) matches Some(i) ==> 0 <= i < s.len() && s[i].0 == k && reg_lookup(s, k)
            == Some(s[i].1) && (forall|j: int| 0 <= j < i ==> (#[trigger] s[j]).0 != k),
        reg_find(s, k) is None ==> !reg_has(s, k) && reg_lookup(s, k) is None,
    decreases s.len(),
{
    if s.len() > 0 && s[0].0 != k {
        lemma_reg_find_props(s.drop_first(), k);
        if reg_find(s.drop_first(), k) is Some {
            let i = reg_find(s.drop_first(), k)->Some_0;
            assert forall|j: int| 0 <= j < i + 1 implies (#[trigger] s[j]).0 != k by {
                if j > 0 {
                    assert(s.drop_first()[j - 1] == s[j]);
                }
            }
            assert(s[i + 1] == s.drop_first()[i]);
        } else {
            assert forall|j: int| 0 <= j < s.len() implies (#[trigger] s[j]).0 != k by {
                if j > 0 {
                    assert(s.drop_first()[j - 1] == s[j]);
                }
            }
            assert(!reg_has(s, k));
        }
    }
}

/// Inserting keeps names unique.
pub proof fn lemma_reg_insert_unique(s: Seq<(Seq<char>, RuleType)>, k: Seq<char>, t: RuleType)
    requires
        reg_names_unique(s),
    ensures
        reg_names_unique(reg_insert(s, k, t)),
        reg_lookup(reg_insert(s, k, t), k) == Some(t),
{
    lemma_reg_find_props(s, k);
    let r = reg_insert(s, k, t);
    match reg_find(s, k) {
        Some(i) => {
            assert(reg_names_unique(r)) by {
                assert forall|p: int, q: int| 0 <= p < q < r.len() implies (#[trigger] r[p]).0 != (
                #[trigger] r[q]).0 by {
                    assert(r[p].0 == s[p].0 && r[q].0 == s[q].0);
                }
            }
            lemma_reg_find_at(r, k, i);
            lemma_reg_find_props(r, k);
        },
        None => {
            assert(reg_names_unique(r)) by {
                assert forall|p: int, q: int| 0 <= p < q < r.len() implies (#[trigger] r[p]).0 != (
                #[trigger] r[q]).0 by {
                    if q < s.len() {
                        assert(r[p] == s[p] && r[q] == s[q]);
                    } else {
                        assert(r[q].0 == k && r[p] == s[p]);
                    }
                }
            }
            lemma_reg_find_at(r, k, s.len() as int);
            lemma_reg_find_props(r, k);
        },
    }
}

/// The registry a sequence of leaves builds: each leaf's bare name is
/// registered, in order, with its classification; a repeated bare name
/// keeps the later leaf's classification.
pub open spec fn spec_registry(leaves: Seq<(Seq<char>, u8)>) -> Seq<(Seq<char>, RuleType)>
    decreases leaves.len(),
{
    if leaves.len() == 0 {
        Seq::empty()
    } else {
        let last = leaves.last();
        reg_insert(
            spec_registry(leaves.drop_last()),
            spec_bare_chars(last.0),
            spec_classify(spec_bare_name(encode_utf8(last.0)), last.1),
        )
    }
}

/// A built registry has unique names.
pub proof fn lemma_spec_registry_unique(leaves: Seq<(Seq<char>, u8)>)
    ensures
        reg_names_unique(spec_registry(leaves)),
    decreases leaves.len(),
{
    if leaves.len() > 0 {
        lemma_spec_registry_unique(leaves.drop_last());
        let last = leaves.last();
        lemma_reg_insert_unique(
            spec_registry(leaves.drop_last()),
            spec_bare_chars(last.0),
            spec_classify(spec_bare_name(encode_utf8(last.0)), last.1),
        );
    }
}

/// The leaf models of a leaf list.
pub open spec fn leaf_views(leaves: Seq<(String, u8)>) -> Seq<(Seq<char>, u8)> {
    Seq::new(leaves.len(), |i: int| (leaves[i].0@, leaves[i].1))
}

/// The kernel's jail-parameter namespace: an immutable mapping from bare
/// parameter name to rule type, built once from the sysctl leaf list.
#[derive(Debug)]
pub struct SchemaRegistry {
    entries: Vec<(String, RuleType)>,
}

impl View for SchemaRegistry {
    type V = Seq<(Seq<char>, RuleType)>;

    closed spec fn view(&self) -> Seq<(Seq<char>, RuleType)> {
        Seq::new(self.entries@.len(), |i: int| (self.entries@[i].0@, self.entries@[i].1))
    }
}

impl SchemaRegistry {
    /// Well-formed: no bare name registered twice.
    pub open spec fn wf(&self) -> bool {
        reg_names_unique(self@)
    }

    /// Build the registry from a list of `(full leaf name, type code)`
    /// pairs.
    ///
    /// Fails exactly when some leaf name is not ASCII or strips to an
    /// empty bare name; such a failure is fatal to construction.
    pub fn from_leaves(leaves: &Vec<(String, u8)>) -> (r: Result<SchemaRegistry, LibJailError>)
        ensures
            r is Ok <==> (forall|i: int|
                0 <= i < leaves@.len() ==> leaf_ok((#[trigger] leaf_views(leaves@)[i]).0)),
            r matches Ok(reg) ==> reg@ == spec_registry(leaf_views(leaves@)) && reg.wf(),
            r matches Err(e) ==> e@ == ErrModel::SchemaError(SchemaFail::MalformedName),
    {
        let ghost lv = leaf_views(leaves@);
        let mut entries: Vec<(String, RuleType)> = Vec::new();
        let n = leaves.len();
        let mut i: usize = 0;
        while i < n
            invariant
                i <= n,
                n == leaves@.len(),
                lv == leaf_views(leaves@),
                forall|j: int| 0 <= j < i ==> leaf_ok((#[trigger] lv[j]).0),
                Seq::new(entries@.len(), |p: int| (entries@[p].0@, entries@[p].1))
                    =~= spec_registry(lv.take(i as int)),
                reg_names_unique(Seq::new(entries@.len(), |p: int| (entries@[p].0@, entries@[p].1))),
            decreases n - i,
        {
            let name: &String = &leaves[i].0;
            let code: u8 = leaves[i].1;
            if !name.is_ascii() {
                proof {
                    assert(!leaf_ok(lv[i as int].0));
                }
                return Err(LibJailError::SchemaError(SchemaFail::MalformedName));
            }
            let bytes = str_bytes(name.as_str());
            let bare = bare_name_vec(&bytes);
            if bare.len() == 0 {
                proof {
                    assert(!leaf_ok(lv[i as int].0));
                }
                return Err(LibJailError::SchemaError(SchemaFail::MalformedName));
            }
            let rt = classify(&bare, code);
            proof {
                is_ascii_chars_encode_utf8(name@);
                assert(all_ascii(bytes@));
                lemma_bare_ascii(bytes@);
            }
            let bare_string = string_of_ascii(bare);
            let ghost before = Seq::new(
                entries@.len(),
                |p: int| (entries@[p].0@, entries@[p].1),
            );
            reg_insert_exec(&mut entries, bare_string, rt);
            proof {
                assert(lv.take(i + 1).drop_last() =~= lv.take(i as int));
                assert(lv.take(i + 1).last() == lv[i as int]);
                lemma_reg_insert_unique(
                    before,
                    spec_bare_chars(lv[i as int].0),
                    spec_classify(spec_bare_name(encode_utf8(lv[i as int].0)), lv[i as int].1),
                );
            }
            i = i + 1;
        }
        let reg = SchemaRegistry { entries };
        proof {
            assert(lv.take(i as int) =~= lv);
            assert(reg@ =~= spec_registry(lv));
        }
        Ok(reg)
    }

    /// How many parameters the registry knows.
    pub fn len(&self) -> (r: usize)
        ensures
            r == self@.len(),
    {
        self.entries.len()
    }

    /// The bare name at an index.
    pub fn name_at(&self, i: usize) -> (r: &String)
        requires
            i < self@.len(),
        ensures
            r@ == self@[i as int].0,
    {
        &self.entries[i].0
    }

    /// The rule type at an index.
    pub fn type_at(&self, i: usize) -> (r: RuleType)
        requires
            i < self@.len(),
        ensures
            r == self@[i as int].1,
    {
        self.entries[i].1
    }

    /// Every registered bare name, in registry order: exactly the
    /// registry's name set, each name once.
    pub fn names(&self) -> (r: Vec<String>)
        requires
            self.wf(),
        ensures
            r@.len() == self@.len(),
            forall|i: int| 0 <= i < r@.len() ==> (#[trigger] r@[i])@ == self@[i].0,
            forall|i: int, j: int| 0 <= i < j < r@.len() ==> r@[i]@ != r@[j]@,
    {
        let mut r: Vec<String> = Vec::new();
        let n = self.entries.len();
        let mut i: usize = 0;
        while i < n
            invariant
                i <= n,
                n == self@.len(),
                r@.len() == i,
                forall|j: int| 0 <= j < i ==> (#[trigger] r@[j])@ == self@[j].0,
            decreases n - i,
        {
            r.push(self.entries[i].0.clone());
            i = i + 1;
        }
        proof {
            assert forall|p: int, q: int| 0 <= p < q < r@.len() implies r@[p]@ != r@[q]@ by {
                assert(r@[p]@ == self@[p].0 && r@[q]@ == self@[q].0);
            }
        }
        r
    }

    /// The rule type registered under a bare name, if any.
    pub fn rule_type(&self, name: &str) -> (r: Option<RuleType>)
        ensures
            r == reg_lookup(self@, name@),
    {
        let mut i: usize = 0;
        while i < self.entries.len()
            invariant
                i <= self@.len(),
                forall|j: int| 0 <= j < i ==> (#[trigger] self@[j]).0 != name@,
            decreases self@.len() - i,
        {
            if str_eq(self.entries[i].0.as_str(), name) {
                proof {
                    lemma_reg_find_at(self@, name@, i as int);
                    lemma_reg_find_props(self@, name@);
                }
                return Some(self.entries[i].1);
            }
            i = i + 1;
        }
        proof {
            lemma_reg_find_at(self@, name@, i as int);
            lemma_reg_find_props(self@, name@);
        }
        None
    }

    /// Build the registry by walking the kernel's jail-parameter sysctl
    /// subtree.  Any walk failure is fatal.
    pub fn discover() -> (r: Result<SchemaRegistry, LibJailError>)
        ensures
            r matches Ok(reg) ==> reg.wf(),
    {
        match walk_jail_params() {
            Ok(leaves) => SchemaRegistry::from_leaves(&leaves),
            Err(f) => Err(LibJailError::SchemaError(f)),
        }
    }
}

/// Store a rule type under a bare name in the entry list.
fn reg_insert_exec(entries: &mut Vec<(String, RuleType)>, name: String, t: RuleType)
    ensures
        Seq::new(final(entries)@.len(), |p: int| (final(entries)@[p].0@, final(entries)@[p].1))
            =~= reg_insert(
            Seq::new(old(entries)@.len(), |p: int| (old(entries)@[p].0@, old(entries)@[p].1)),
            name@,
            t,
        ),
{
    let ghost before = Seq::new(entries@.len(), |p: int| (entries@[p].0@, entries@[p].1));
    let ghost k = name@;
    let mut i: usize = 0;
    while i < entries.len()
        invariant
            i <= entries@.len(),
            entries@ == old(entries)@,
            before == Seq::new(entries@.len(), |p: int| (entries@[p].0@, entries@[p].1)),
            forall|j: int| 0 <= j < i ==> (#[trigger] before[j]).0 != k,
            name@ == k,
        decreases entries@.len() - i,
    {
        if str_eq(entries[i].0.as_str(), name.as_str()) {
            proof {
                lemma_reg_find_at(before, k, i as int);
            }
            entries.set(i, (name, t));
            proof {
                assert(Seq::new(entries@.len(), |p: int| (entries@[p].0@, entries@[p].1))
                    =~= before.update(i as int, (k, t)));
            }
            return ;
        }
        i = i + 1;
    }
    proof {
        lemma_reg_find_at(before, k, i as int);
    }
    entries.push((name, t));
    proof {
        assert(Seq::new(entries@.len(), |p: int| (entries@[p].0@, entries@[p].1)) =~= before.push(
            (k, t),
        ));
    }
}

/// The sysctl error type, declared so wrappers can convert its variants.
#[verifier::external_type_specification]
#[verifier::external_body]
pub struct ExSysctlError(sysctl::SysctlError);

/// Relies on sysctl's `SysctlError`: tells the no-read-access failure
/// apart from every other failure of a schema lookup.
#[verifier::external_body]
pub(crate) fn map_sysctl_fail(e: sysctl::SysctlError) -> SchemaFail {
    match e {
        sysctl::SysctlError::NoReadAccess => SchemaFail::NoReadAccess,
        _ => SchemaFail::Other,
    }
}

/// Relies on sysctl's `Ctl::new` and `CtlIter`: walks every sysctl leaf
/// below the jail-parameter prefix and hands back each leaf's full name
/// with its reported type code (1 integer, 2 unsigned long, 3 string,
/// 4 struct, 0 other).  Any failure while walking aborts the walk.
#[verifier::external_body]
fn walk_jail_params() -> Result<Vec<(String, u8)>, SchemaFail> {
    let root = sysctl::Ctl::new(crate::SYSCTL_PREFIX).map_err(map_sysctl_fail)?;
    let mut out = Vec::new();
    for item in root {
        let ctl = item.map_err(map_sysctl_fail)?;
        let name = ctl.name().map_err(map_sysctl_fail)?;
        ctl.value().map_err(map_sysctl_fail)?;
        let code: u8 = match ctl.value_type().map_err(map_sysctl_fail)? {
            sysctl::CtlType::Int => 1, sysctl::CtlType::Ulong => 2,
            sysctl::CtlType::String => 3, sysctl::CtlType::Struct => 4, _ => 0,
        };
        out.push((name, code));
    }
    Ok(out)
}

} // verus!
