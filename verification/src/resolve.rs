//! Placeholder resolution: sizing and typing a parameter before a read.
//!
//! A fetch call needs a zero-valued placeholder of the right shape for
//! every requested parameter.  Four built-in names resolve without the
//! schema; every other name is resolved from what its sysctl leaf reports:
//! an integer or unsigned-long parameter gets a zero scalar, a string
//! parameter a zero-filled buffer of the advertised size, a struct-typed
//! parameter a 32- or 128-bit zero depending on its first size byte.

use sysctl::Sysctl;
use vstd::prelude::*;
use vstd::string::StringExecFns;
use vstd::utf8::encode_utf8;

use vstd::utf8::{is_ascii_chars, is_ascii_chars_encode_utf8};

use crate::errors::{ConvertError, ErrModel, LibJailError, SchemaFail};
use crate::params::{has_key, lemma_insert_has_key, spec_insert, ParameterSet};
use crate::schema::map_sysctl_fail;
use crate::text::{all_digit_bytes, dec_value_bytes, parse_usize, str_eq};
use crate::value::{first_nul, lemma_first_nul_at, val_wf, Val, ValModel};

verus! {

/// What one schema leaf reports: its primitive type, and for string and
/// struct leaves the value the resolver reads.
#[derive(Clone, Debug)]
pub enum LeafInfo {
    /// An integer parameter.
    Int,
    /// An unsigned-long parameter.
    Ulong,
    /// A string parameter; the value is its advertised size as decimal
    /// text.
    Str(String),
    /// A struct-typed parameter; the value's first byte is its size.
    Struct(Vec<u8>),
    /// The leaf's reported type and its value disagree in shape.
    ShapeMismatch,
    /// Any other primitive type.
    Other,
}

/// Mathematical model of a [`LeafInfo`].
pub enum LeafModel {
    Int,
    Ulong,
    Str(Seq<char>),
    Struct(Seq<u8>),
    ShapeMismatch,
    Other,
}

impl View for LeafInfo {
    type V = LeafModel;

    open spec fn view(&self) -> LeafModel {
        match self {
            LeafInfo::Int => LeafModel::Int,
            LeafInfo::Ulong => LeafModel::Ulong,
            LeafInfo::Str(s) => LeafModel::Str(s@),
            LeafInfo::Struct(b) => LeafModel::Struct(b@),
            LeafInfo::ShapeMismatch => LeafModel::ShapeMismatch,
            LeafInfo::Other => LeafModel::Other,
        }
    }
}

/// The placeholder a leaf resolves to.
///
/// Integer leaves give a zero 32-bit integer, unsigned-long leaves a zero
/// 64-bit integer; a string leaf's size text must parse and gives a
/// zero-filled buffer of that many bytes; a struct leaf's first size byte
/// must be 4 or 16, giving a zero 32- or 128-bit integer; anything else
/// is a mismatch.
pub open spec fn spec_resolve(leaf: LeafModel) -> Result<ValModel, ErrModel> {
    match leaf {
        LeafModel::Int => Ok(ValModel::I32(0)),
        LeafModel::Ulong => Ok(ValModel::U64(0)),
        LeafModel::Str(s) => {
            let b = encode_utf8(s);
            if b.len() > 0 && all_digit_bytes(b) && dec_value_bytes(b) <= usize::MAX {
                Ok(ValModel::Buffer(Seq::new(dec_value_bytes(b) as nat, |i: int| 0u8)))
            } else {
                Err(ErrModel::ConvertError(ConvertError::ParseIntError))
            }
        },
        LeafModel::Struct(b) => {
            if b.len() > 0 && b[0] == 4 {
                Ok(ValModel::U32(0))
            } else if b.len() > 0 && b[0] == 16 {
                Ok(ValModel::U128(0))
            } else {
                Err(ErrModel::MismatchCtlValue)
            }
        },
        LeafModel::ShapeMismatch => Err(ErrModel::MismatchCtlValue),
        LeafModel::Other => Err(ErrModel::MismatchCtlType),
    }
}

/// A resolved placeholder is zero-valued.
pub open spec fn placeholder_zero(v: ValModel) -> bool {
    match v {
        ValModel::I32(x) => x == 0,
        ValModel::U32(x) => x == 0,
        ValModel::U64(x) => x == 0,
        ValModel::U128(x) => x == 0,
        ValModel::Buffer(b) => forall|i: int| 0 <= i < b.len() ==> b[i] == 0,
        _ => false,
    }
}

/// Whatever a leaf reports, a successful resolution is a zero-valued
/// placeholder.
pub proof fn lemma_resolve_zero(leaf: LeafModel)
    ensures
        spec_resolve(leaf) matches Ok(v) ==> placeholder_zero(v) && val_wf(v),
{
}

/// Resolve one leaf report into its placeholder.
pub fn resolve_from_leaf(leaf: &LeafInfo) -> (r: Result<Val, LibJailError>)
    ensures
        r matches Ok(v) ==> spec_resolve(leaf@) == Ok::<ValModel, ErrModel>(v@) && val_wf(v@),
        r matches Err(e) ==> spec_resolve(leaf@) == Err::<ValModel, ErrModel>(e@),
        r is Ok <==> spec_resolve(leaf@) is Ok,
{
    match leaf {
        LeafInfo::Int => Ok(Val::I32(0)),
        LeafInfo::Ulong => Ok(Val::U64(0)),
        LeafInfo::Str(s) => {
            match parse_usize(s.as_str()) {
                Ok(size) => {
                    let mut buf: Vec<u8> = Vec::new();
                    let mut i: usize = 0;
                    while i < size
                        invariant
                            i <= size,
                            buf@.len() == i,
                            forall|j: int| 0 <= j < i ==> buf@[j] == 0,
                        decreases size - i,
                    {
                        buf.push(0);
                        i = i + 1;
                    }
                    proof {
                        assert(buf@ =~= Seq::new(
                            dec_value_bytes(encode_utf8(s@)) as nat,
                            |j: int| 0u8,
                        ));
                    }
                    Ok(Val::Buffer(buf))
                },
                Err(_) => Err(LibJailError::ConvertError(ConvertError::ParseIntError)),
            }
        },
        LeafInfo::Struct(b) => {
            if b.len() > 0 && b[0] == 4 {
                Ok(Val::U32(0))
            } else if b.len() > 0 && b[0] == 16 {
                Ok(Val::U128(0))
            } else {
                Err(LibJailError::MismatchCtlValue)
            }
        },
        LeafInfo::ShapeMismatch => Err(LibJailError::MismatchCtlValue),
        LeafInfo::Other => Err(LibJailError::MismatchCtlType),
    }
}

/// The placeholder of a built-in name, checked before any schema lookup.
///
/// The two literal address parameters and the two address-family toggles
/// are not reliably self-describing through the generic per-name query,
/// so they resolve without it.
pub open spec fn spec_val_by_key(k: Seq<char>) -> Option<ValModel> {
    if k == "ip4.addr"@ {
        Some(ValModel::Ip4(0))
    } else if k == "ip6.addr"@ {
        Some(ValModel::Ip6(0))
    } else if k == "ip4"@ {
        Some(ValModel::I32(0))
    } else if k == "ip6"@ {
        Some(ValModel::I32(0))
    } else {
        None
    }
}

/// The placeholder of a built-in name, independent of the schema.
pub fn get_val_by_key(key: &str) -> (r: Option<Val>)
    ensures
        match spec_val_by_key(key@) {
            Some(m) => r matches Some(v) && v@ == m,
            None => r is None,
        },
{
    if str_eq(key, "ip4.addr") {
        Some(Val::Ip4(0))
    } else if str_eq(key, "ip6.addr") {
        Some(Val::Ip6(0))
    } else if str_eq(key, "ip4") {
        Some(Val::I32(0))
    } else if str_eq(key, "ip6") {
        Some(Val::I32(0))
    } else {
        None
    }
}

/// Relies on sysctl's `Ctl::new`, `value` and `value_type` for one leaf:
/// reports the leaf's primitive type, the size text of a string leaf, and
/// the raw bytes of a struct leaf; failures keep the no-read-access case
/// apart.
#[verifier::external_body]
fn query_jail_leaf(full_name: &str) -> Result<LeafInfo, SchemaFail> {
    let ctl = sysctl::Ctl::new(full_name).map_err(map_sysctl_fail)?;
    ctl.name().map_err(map_sysctl_fail)?;
    let value = ctl.value().map_err(map_sysctl_fail)?;
    Ok(match ctl.value_type().map_err(map_sysctl_fail)? {
        sysctl::CtlType::Int => LeafInfo::Int,
        sysctl::CtlType::Ulong => LeafInfo::Ulong,
        sysctl::CtlType::String => match value {
            sysctl::CtlValue::String(s) => LeafInfo::Str(s), _ => LeafInfo::ShapeMismatch },
        sysctl::CtlType::Struct => match value {
            sysctl::CtlValue::Struct(b) => LeafInfo::Struct(b), _ => LeafInfo::ShapeMismatch },
        _ => LeafInfo::Other,
    })
}

/// Query the schema leaf of one bare parameter name and resolve its
/// placeholder.  Whatever the kernel reports, a successful result is a
/// well-formed, zero-valued placeholder.
pub fn get_val_by_type(key: &str) -> (r: Result<Val, LibJailError>)
    ensures
        r matches Ok(v) ==> val_wf(v@) && placeholder_zero(v@),
{
    let full = String::from_str("security.jail.param.").concat(key);
    match query_jail_leaf(full.as_str()) {
        Ok(leaf) => {
            let r = resolve_from_leaf(&leaf);
            proof {
                lemma_resolve_zero(leaf@);
            }
            r
        },
        Err(f) => Err(LibJailError::SchemaError(f)),
    }
}

/// What planning one requested name does: add a placeholder pair to the
/// request, skip the name, or fail the whole call.
pub enum PlanModel {
    Add(ValModel, ValModel),
    Skip,
    Fail(ErrModel),
}

/// The key value a requested name encodes to.
pub open spec fn cstr_of(k: Seq<char>) -> ValModel {
    ValModel::CString(encode_utf8(k).push(0))
}

/// Plan one requested name against what its schema lookup reported.
///
/// A name with a NUL byte fails; a built-in name adds its override
/// placeholder, whatever the lookup said; otherwise the lookup's leaf
/// resolves, a no-read-access lookup failure skips the name, and any
/// other lookup failure fails the call.
pub open spec fn spec_plan_one(k: Seq<char>, lookup: Result<LeafModel, SchemaFail>) -> PlanModel {
    if first_nul(encode_utf8(k)) != encode_utf8(k).len() {
        PlanModel::Fail(ErrModel::ConvertError(ConvertError::NulError))
    } else {
        match spec_val_by_key(k) {
            Some(v) => PlanModel::Add(cstr_of(k), v),
            None => match lookup {
                Ok(leaf) => match spec_resolve(leaf) {
                    Ok(v) => PlanModel::Add(cstr_of(k), v),
                    Err(e) => PlanModel::Fail(e),
                },
                Err(SchemaFail::NoReadAccess) => PlanModel::Skip,
                Err(f) => PlanModel::Fail(ErrModel::SchemaError(f)),
            },
        }
    }
}

/// The request that planning a list of `(name, lookup)` pairs builds:
/// each added pair is inserted in order, skipped names are left out.
pub open spec fn spec_plan_fold(pairs: Seq<(Seq<char>, Result<LeafModel, SchemaFail>)>) -> Seq<
    (ValModel, ValModel),
>
    decreases pairs.len(),
{
    if pairs.len() == 0 {
        Seq::empty()
    } else {
        let prev = spec_plan_fold(pairs.drop_last());
        match spec_plan_one(pairs.last().0, pairs.last().1) {
            PlanModel::Add(k, v) => spec_insert(prev, k, v),
            _ => prev,
        }
    }
}

/// The model of one lookup result.
pub open spec fn lookup_view(r: Result<LeafInfo, SchemaFail>) -> Result<LeafModel, SchemaFail> {
    match r {
        Ok(l) => Ok(l@),
        Err(f) => Err(f),
    }
}

/// The models of a list of `(name, lookup)` pairs.
pub open spec fn pair_views(pairs: Seq<(String, Result<LeafInfo, SchemaFail>)>) -> Seq<
    (Seq<char>, Result<LeafModel, SchemaFail>),
> {
    Seq::new(pairs.len(), |i: int| (pairs[i].0@, lookup_view(pairs[i].1)))
}

/// Build the fetch request from requested names and their schema lookup
/// results.
///
/// Succeeds exactly when no pair plans to a failure; no-read-access names
/// are omitted from the request rather than failing it.
pub fn plan_request(pairs: &Vec<(String, Result<LeafInfo, SchemaFail>)>) -> (r: Result<
    ParameterSet,
    LibJailError,
>)
    ensures
        r is Ok <==> (forall|i: int|
            0 <= i < pairs@.len() ==> !((#[trigger] spec_plan_one(
                pair_views(pairs@)[i].0,
                pair_views(pairs@)[i].1,
            )) is Fail)),
        r matches Ok(ps) ==> ps@ == spec_plan_fold(pair_views(pairs@)) && ps.wf(),
        r matches Err(e) ==> exists|i: int|
            0 <= i < pairs@.len() && spec_plan_one(
                (#[trigger] pair_views(pairs@)[i]).0,
                pair_views(pairs@)[i].1,
            ) == PlanModel::Fail(e@),
{
    let ghost pv = pair_views(pairs@);
    let mut ps = ParameterSet::new();
    let n = pairs.len();
    let mut i: usize = 0;
    proof {
        assert(ps@ =~= spec_plan_fold(pv.take(0)));
    }
    while i < n
        invariant
            i <= n,
            n == pairs@.len(),
            pv == pair_views(pairs@),
            ps@ == spec_plan_fold(pv.take(i as int)),
            ps.wf(),
            forall|j: int|
                0 <= j < i ==> !((#[trigger] spec_plan_one(pv[j].0, pv[j].1)) is Fail),
        decreases n - i,
    {
        proof {
            assert(pv.take(i + 1).drop_last() =~= pv.take(i as int));
            assert(pv.take(i + 1).last() == pv[i as int]);
        }
        let key: &String = &pairs[i].0;
        match Val::from_string(key) {
            Ok(key_val) => {
                match get_val_by_key(key.as_str()) {
                    Some(v) => {
                        proof {
                            assert(val_wf(v@));
                        }
                        ps.insert(key_val, v);
                    },
                    None => {
                        match &pairs[i].1 {
                            Ok(leaf) => {
                                match resolve_from_leaf(leaf) {
                                    Ok(v) => {
                                        ps.insert(key_val, v);
                                    },
                                    Err(e) => {
                                        proof {
                                            assert(spec_plan_one(pv[i as int].0, pv[i as int].1)
                                                == PlanModel::Fail(e@));
                                        }
                                        return Err(e);
                                    },
                                }
                            },
                            Err(f) => {
                                match f {
                                    SchemaFail::NoReadAccess => {},
                                    _ => {
                                        let e = LibJailError::SchemaError(*f);
                                        proof {
                                            assert(spec_plan_one(pv[i as int].0, pv[i as int].1)
                                                == PlanModel::Fail(e@));
                                        }
                                        return Err(e);
                                    },
                                }
                            },
                        }
                    },
                }
            },
            Err(_) => {
                let e = LibJailError::ConvertError(ConvertError::NulError);
                proof {
                    assert(spec_plan_one(pv[i as int].0, pv[i as int].1) == PlanModel::Fail(e@));
                }
                return Err(e);
            },
        }
        i = i + 1;
    }
    proof {
        assert(pv.take(i as int) =~= pv);
    }
    Ok(ps)
}

/// Look up the schema leaf of every requested name that is not a
/// built-in override, pairing each name with its lookup result.
pub fn collect_lookups(keys: &Vec<String>) -> (r: Vec<(String, Result<LeafInfo, SchemaFail>)>)
    ensures
        r@.len() == keys@.len(),
        forall|i: int| 0 <= i < r@.len() ==> (#[trigger] r@[i]).0@ == keys@[i]@,
{
    let mut r: Vec<(String, Result<LeafInfo, SchemaFail>)> = Vec::new();
    let n = keys.len();
    let mut i: usize = 0;
    while i < n
        invariant
            i <= n,
            n == keys@.len(),
            r@.len() == i,
            forall|j: int| 0 <= j < i ==> (#[trigger] r@[j]).0@ == keys@[j]@,
        decreases n - i,
    {
        let key = keys[i].clone();
        let lookup = if get_val_by_key(key.as_str()).is_some() {
            Ok(LeafInfo::Other)
        } else {
            let full = String::from_str("security.jail.param.").concat(key.as_str());
            query_jail_leaf(full.as_str())
        };
        r.push((key, lookup));
        i = i + 1;
    }
    r
}

/// Resolve a placeholder for every requested name and build the fetch
/// request: built-in overrides first, then per-name schema lookups, with
/// no-read-access names omitted.
pub fn prepare_rules(keys: &Vec<String>) -> (r: Result<ParameterSet, LibJailError>)
    ensures
        r matches Ok(ps) ==> ps.wf() && (exists|lk: Seq<Result<LeafModel, SchemaFail>>|
            #![trigger lk.len()]
            lk.len() == keys@.len() && ps@ == spec_plan_fold(
                Seq::new(keys@.len(), |i: int| (keys@[i]@, lk[i])),
            )),
{
    let pairs = collect_lookups(keys);
    let r = plan_request(&pairs);
    proof {
        match &r {
            Ok(ps) => {
                let lk = Seq::new(pairs@.len(), |i: int| lookup_view(pairs@[i].1));
                assert(lk.len() == keys@.len());
                assert(pair_views(pairs@) =~= Seq::new(
                    keys@.len(),
                    |i: int| (keys@[i]@, lk[i]),
                ));
                assert(ps@ == spec_plan_fold(Seq::new(keys@.len(), |i: int| (keys@[i]@, lk[i]))));
            },
            Err(_) => {},
        }
    }
    r
}

/// A built-in override plans the same, whatever the schema lookup says.
pub proof fn lemma_override_ignores_schema(
    k: Seq<char>,
    l1: Result<LeafModel, SchemaFail>,
    l2: Result<LeafModel, SchemaFail>,
)
    requires
        spec_val_by_key(k) is Some,
    ensures
        spec_plan_one(k, l1) == spec_plan_one(k, l2),
{
}

/// The literal address parameters always plan to their override
/// placeholders, whatever a generic per-name schema query would report.
pub proof fn lemma_addr_overrides(lookup: Result<LeafModel, SchemaFail>)
    ensures
        spec_plan_one("ip4.addr"@, lookup) == PlanModel::Add(
            cstr_of("ip4.addr"@),
            ValModel::Ip4(0),
        ),
        spec_plan_one("ip6.addr"@, lookup) == PlanModel::Add(
            cstr_of("ip6.addr"@),
            ValModel::Ip6(0),
        ),
{
    reveal_strlit("ip4.addr");
    reveal_strlit("ip6.addr");
    assert("ip6.addr"@[2] == '6' && "ip4.addr"@[2] == '4');
    lemma_no_nul_ascii_lit("ip4.addr"@);
    lemma_no_nul_ascii_lit("ip6.addr"@);
}

/// An ASCII name without NUL characters encodes without NUL bytes.
proof fn lemma_no_nul_ascii_lit(k: Seq<char>)
    requires
        is_ascii_chars(k),
        forall|i: int| 0 <= i < k.len() ==> k[i] != '\0',
    ensures
        first_nul(encode_utf8(k)) == encode_utf8(k).len(),
{
    is_ascii_chars_encode_utf8(k);
    let b = encode_utf8(k);
    assert forall|i: int| 0 <= i < b.len() implies b[i] != 0 by {
        assert(b[i] == k[i] as u8);
    }
    lemma_first_nul_at(b, b.len() as int);
}

/// A non-override parameter whose leaf reports the integer type — as the
/// boolean-shaped parameters do — plans to a zero 32-bit placeholder.
pub proof fn lemma_int_leaf_zero(k: Seq<char>)
    requires
        first_nul(encode_utf8(k)) == encode_utf8(k).len(),
        spec_val_by_key(k) is None,
    ensures
        spec_plan_one(k, Ok(LeafModel::Int)) == PlanModel::Add(cstr_of(k), ValModel::I32(0)),
{
}

/// Every key the planned request holds is the encoding of one of the
/// requested names that planned to an addition.
pub proof fn lemma_plan_fold_keys(pairs: Seq<(Seq<char>, Result<LeafModel, SchemaFail>)>)
    ensures
        forall|k: ValModel|
            #[trigger] has_key(spec_plan_fold(pairs), k) ==> exists|i: int|
                0 <= i < pairs.len() && spec_plan_one((#[trigger] pairs[i]).0, pairs[i].1)
                    == PlanModel::Add(k, spec_added_val(pairs[i].0, pairs[i].1)),
    decreases pairs.len(),
{
    if pairs.len() > 0 {
        lemma_plan_fold_keys(pairs.drop_last());
        let prev = spec_plan_fold(pairs.drop_last());
        let last = pairs.last();
        assert forall|k: ValModel| #[trigger]
            has_key(spec_plan_fold(pairs), k) implies exists|i: int|
            0 <= i < pairs.len() && spec_plan_one((#[trigger] pairs[i]).0, pairs[i].1)
                == PlanModel::Add(k, spec_added_val(pairs[i].0, pairs[i].1)) by {
            match spec_plan_one(last.0, last.1) {
                PlanModel::Add(ak, av) => {
                    lemma_insert_has_key(prev, ak, av, k);
                    if k == ak {
                        assert(av == spec_added_val(last.0, last.1));
                        assert(pairs[pairs.len() - 1] == last);
                    } else {
                        let i = choose|i: int|
                            0 <= i < pairs.drop_last().len() && spec_plan_one(
                                (#[trigger] pairs.drop_last()[i]).0,
                                pairs.drop_last()[i].1,
                            ) == PlanModel::Add(
                                k,
                                spec_added_val(pairs.drop_last()[i].0, pairs.drop_last()[i].1),
                            );
                        assert(pairs[i] == pairs.drop_last()[i]);
                    }
                },
                _ => {
                    let i = choose|i: int|
                        0 <= i < pairs.drop_last().len() && spec_plan_one(
                            (#[trigger] pairs.drop_last()[i]).0,
                            pairs.drop_last()[i].1,
                        ) == PlanModel::Add(
                            k,
                            spec_added_val(pairs.drop_last()[i].0, pairs.drop_last()[i].1),
                        );
                    assert(pairs[i] == pairs.drop_last()[i]);
                },
            }
        }
    }
}

/// The value a pair adds when it plans to an addition.
pub open spec fn spec_added_val(k: Seq<char>, lookup: Result<LeafModel, SchemaFail>) -> ValModel {
    match spec_plan_one(k, lookup) {
        PlanModel::Add(ak, av) => av,
        _ => ValModel::Null,
    }
}

/// Distinct names encode to distinct keys.
pub proof fn lemma_cstr_injective(k1: Seq<char>, k2: Seq<char>)
    requires
        cstr_of(k1) == cstr_of(k2),
    ensures
        k1 == k2,
{
    let b1 = encode_utf8(k1);
    let b2 = encode_utf8(k2);
    assert(b1.push(0) == b2.push(0));
    assert(b1 =~= b2) by {
        assert(b1.len() == b2.len());
        assert forall|i: int| 0 <= i < b1.len() implies b1[i] == b2[i] by {
            assert(b1.push(0)[i] == b1[i] && b2.push(0)[i] == b2[i]);
        }
    }
    vstd::utf8::encode_utf8_decode_utf8(k1);
    vstd::utf8::encode_utf8_decode_utf8(k2);
}

/// A name that plans to an addition is requested: planning never drops a
/// key it has added.
pub proof fn lemma_added_name_present(
    pairs: Seq<(Seq<char>, Result<LeafModel, SchemaFail>)>,
    i: int,
)
    requires
        0 <= i < pairs.len(),
        spec_plan_one(pairs[i].0, pairs[i].1) is Add,
    ensures
        has_key(spec_plan_fold(pairs), cstr_of(pairs[i].0)),
    decreases pairs.len(),
{
    let prev = spec_plan_fold(pairs.drop_last());
    let last = pairs.last();
    if i == pairs.len() - 1 {
        match spec_plan_one(last.0, last.1) {
            PlanModel::Add(ak, av) => {
                assert(ak == cstr_of(last.0));
                lemma_insert_has_key(prev, ak, av, cstr_of(pairs[i].0));
            },
            _ => {},
        }
    } else {
        assert(pairs.drop_last()[i] == pairs[i]);
        lemma_added_name_present(pairs.drop_last(), i);
        match spec_plan_one(last.0, last.1) {
            PlanModel::Add(ak, av) => {
                lemma_insert_has_key(prev, ak, av, cstr_of(pairs[i].0));
            },
            _ => {},
        }
    }
}

/// A name whose only occurrence plans to a skip is omitted from the
/// request: the no-read-access policy.
pub proof fn lemma_no_access_omitted(
    pairs: Seq<(Seq<char>, Result<LeafModel, SchemaFail>)>,
    i: int,
)
    requires
        0 <= i < pairs.len(),
        spec_plan_one(pairs[i].0, pairs[i].1) is Skip,
        forall|j: int| 0 <= j < pairs.len() && j != i ==> (#[trigger] pairs[j]).0 != pairs[i].0,
    ensures
        !has_key(spec_plan_fold(pairs), cstr_of(pairs[i].0)),
{
    if has_key(spec_plan_fold(pairs), cstr_of(pairs[i].0)) {
        lemma_plan_fold_keys(pairs);
        let j = choose|j: int|
            0 <= j < pairs.len() && spec_plan_one((#[trigger] pairs[j]).0, pairs[j].1)
                == PlanModel::Add(
                cstr_of(pairs[i].0),
                spec_added_val(pairs[j].0, pairs[j].1),
            );
        assert(spec_plan_one(pairs[j].0, pairs[j].1) matches PlanModel::Add(ak, _) && ak
            == cstr_of(pairs[j].0));
        lemma_cstr_injective(pairs[j].0, pairs[i].0);
        assert(j == i);
        assert(false);
    }
}

} // verus!
