//! The facade operations' verified parts.
//!
//! A kernel call itself is a platform syscall the library does not make;
//! callers encode a request here, perform the call, and hand the results
//! back.  This module holds the action flags of the write path, the
//! container index of the read path, the exact reading of each call's
//! integer result, and the composition of the read pipeline.

use vstd::prelude::*;
use vstd::utf8::encode_utf8;

use crate::errors::{ConvertError, ErrModel, LibJailError, SchemaFail};
use crate::params::{
    bytes_views, has_key, lemma_insert_has_key, spec_decode_all, spec_insert, spec_refill_all,
    ParameterSet,
};
use crate::resolve::{
    cstr_of, lemma_plan_fold_keys, prepare_rules, spec_added_val, spec_plan_fold, spec_plan_one,
    LeafModel, PlanModel,
};
use crate::schema::SchemaRegistry;
use crate::value::{first_nul, lemma_first_nul_at, OutVal, OutValModel, Val, ValModel};

verus! {

/// The `ip4`/`ip6` parameter value that disables the address family.
pub const JAIL_SYS_DISABLE: i32 = 0;

/// The `ip4`/`ip6` parameter value that gives the container its own
/// addresses.
pub const JAIL_SYS_NEW: i32 = 1;

/// The `ip4`/`ip6` parameter value that inherits the host's addresses.
pub const JAIL_SYS_INHERIT: i32 = 2;

/// The flag bit of a create request.
pub const JAIL_CREATE_FLAG: i32 = 1;

/// The flag bit of an update request.
pub const JAIL_UPDATE_FLAG: i32 = 2;

/// The flag bit of the attach modifier.
pub const JAIL_ATTACH_FLAG: i32 = 4;

/// What a write call is asked to do: create and update may be combined,
/// attach is an optional modifier.
#[derive(Clone, Copy, Debug, PartialEq, Eq, Hash, Structural)]
pub struct Action {
    pub create: bool,
    pub update: bool,
    pub attach: bool,
}

/// The attach modifier of a write call.
#[derive(Clone, Copy, Debug, PartialEq, Eq, Hash, Structural)]
pub struct Modifier {
    pub attach: bool,
}

/// The flag word an action encodes to.
pub open spec fn spec_action_flags(a: Action) -> i32 {
    (if a.create {
        JAIL_CREATE_FLAG
    } else {
        0
    }) | (if a.update {
        JAIL_UPDATE_FLAG
    } else {
        0
    }) | (if a.attach {
        JAIL_ATTACH_FLAG
    } else {
        0
    })
}

impl Action {
    /// Create a new container.
    pub fn create() -> (r: Action)
        ensures
            r == (Action { create: true, update: false, attach: false }),
    {
        Action { create: true, update: false, attach: false }
    }

    /// Update an existing container.
    pub fn update() -> (r: Action)
        ensures
            r == (Action { create: false, update: true, attach: false }),
    {
        Action { create: false, update: true, attach: false }
    }

    /// The union of two actions' capabilities.
    pub fn combine(self, other: Action) -> (r: Action)
        ensures
            r.create == (self.create || other.create),
            r.update == (self.update || other.update),
            r.attach == (self.attach || other.attach),
    {
        Action {
            create: self.create || other.create,
            update: self.update || other.update,
            attach: self.attach || other.attach,
        }
    }

    /// This action with a modifier added.
    pub fn with(self, m: Modifier) -> (r: Action)
        ensures
            r.create == self.create,
            r.update == self.update,
            r.attach == (self.attach || m.attach),
    {
        Action { create: self.create, update: self.update, attach: self.attach || m.attach }
    }

    /// The flag word handed to the kernel's write call.
    pub fn flags(&self) -> (r: i32)
        ensures
            r == spec_action_flags(*self),
    {
        (if self.create {
            JAIL_CREATE_FLAG
        } else {
            0
        }) | (if self.update {
            JAIL_UPDATE_FLAG
        } else {
            0
        }) | (if self.attach {
            JAIL_ATTACH_FLAG
        } else {
            0
        })
    }
}

impl Modifier {
    /// Attach the calling process to the container the call touches.
    pub fn attach() -> (r: Modifier)
        ensures
            r == (Modifier { attach: true }),
    {
        Modifier { attach: true }
    }
}

/// How the container a read call addresses is identified: numerically or
/// by name.
#[derive(Clone, Debug)]
pub enum Index {
    Jid(i32),
    Name(String),
}

/// Mathematical model of an [`Index`].
pub enum IndexModel {
    Jid(i32),
    Name(Seq<char>),
}

impl View for Index {
    type V = IndexModel;

    open spec fn view(&self) -> IndexModel {
        match self {
            Index::Jid(j) => IndexModel::Jid(*j),
            Index::Name(s) => IndexModel::Name(s@),
        }
    }
}

impl From<i32> for Index {
    fn from(value: i32) -> (r: Index) {
        Index::Jid(value)
    }
}

impl vstd::std_specs::convert::FromSpecImpl<i32> for Index {
    open spec fn obeys_from_spec() -> bool {
        true
    }

    open spec fn from_spec(value: i32) -> Index {
        Index::Jid(value)
    }
}

impl From<String> for Index {
    fn from(value: String) -> (r: Index) {
        Index::Name(value)
    }
}

impl vstd::std_specs::convert::FromSpecImpl<String> for Index {
    open spec fn obeys_from_spec() -> bool {
        true
    }

    open spec fn from_spec(value: String) -> Index {
        Index::Name(value)
    }
}

/// The parameter name under which the index travels.
pub open spec fn spec_index_key(ix: IndexModel) -> Seq<char> {
    match ix {
        IndexModel::Jid(_) => "jid"@,
        IndexModel::Name(_) => "name"@,
    }
}

/// The value under which the index travels.
pub open spec fn spec_index_val(ix: IndexModel) -> ValModel {
    match ix {
        IndexModel::Jid(j) => ValModel::I32(j),
        IndexModel::Name(s) => ValModel::CString(encode_utf8(s).push(0)),
    }
}

/// An index is encodable when a by-name index has no NUL byte.
pub open spec fn index_ok(ix: IndexModel) -> bool {
    match ix {
        IndexModel::Jid(_) => true,
        IndexModel::Name(s) => first_nul(encode_utf8(s)) == encode_utf8(s).len(),
    }
}

/// A short ASCII literal encodes without NUL bytes.
proof fn lemma_lit_no_nul(k: Seq<char>)
    requires
        vstd::utf8::is_ascii_chars(k),
        forall|i: int| 0 <= i < k.len() ==> k[i] != '\0',
    ensures
        first_nul(encode_utf8(k)) == encode_utf8(k).len(),
{
    vstd::utf8::is_ascii_chars_encode_utf8(k);
    let b = encode_utf8(k);
    assert forall|i: int| 0 <= i < b.len() implies b[i] != 0 by {
        assert(b[i] == k[i] as u8);
    }
    lemma_first_nul_at(b, b.len() as int);
}

/// Merge the index entry into a request: `jid` for a numeric index,
/// `name` for a by-name index.
pub fn add_index(ps: &mut ParameterSet, index: &Index) -> (r: Result<(), LibJailError>)
    requires
        old(ps).wf(),
    ensures
        r is Ok <==> index_ok(index@),
        r is Ok ==> final(ps)@ =~= spec_insert(
            old(ps)@,
            cstr_of(spec_index_key(index@)),
            spec_index_val(index@),
        ) && final(ps).wf(),
        r is Err ==> final(ps)@ == old(ps)@ && r == Err::<(), LibJailError>(
            LibJailError::ConvertError(ConvertError::NulError),
        ),
{
    match index {
        Index::Jid(j) => {
            proof {
                reveal_strlit("jid");
                lemma_lit_no_nul("jid"@);
            }
            match Val::from_text("jid") {
                Ok(k) => {
                    ps.insert(k, Val::I32(*j));
                    Ok(())
                },
                Err(_) => {
                    proof {
                        assert(false);
                    }
                    Err(LibJailError::ConvertError(ConvertError::NulError))
                },
            }
        },
        Index::Name(s) => {
            proof {
                reveal_strlit("name");
                lemma_lit_no_nul("name"@);
            }
            match Val::from_string(s) {
                Ok(v) => {
                    match Val::from_text("name") {
                        Ok(k) => {
                            ps.insert(k, v);
                            Ok(())
                        },
                        Err(_) => {
                            proof {
                                assert(false);
                            }
                            Err(LibJailError::ConvertError(ConvertError::NulError))
                        },
                    }
                },
                Err(_) => Err(LibJailError::ConvertError(ConvertError::NulError)),
            }
        },
    }
}

/// Read a write call's result: a strictly positive return is the new
/// container id; anything else surfaces the OS error code and message.
pub fn interpret_set_result(ret: i32, err_code: i32, err_msg: String) -> (r: Result<
    i32,
    LibJailError,
>)
    ensures
        ret > 0 ==> r == Ok::<i32, LibJailError>(ret),
        ret <= 0 ==> (r matches Err(e) && e@ == (ErrModel::ExternalError {
            code: err_code,
            message: err_msg@,
        })),
{
    if ret > 0 {
        Ok(ret)
    } else {
        Err(LibJailError::ExternalError { code: err_code, message: err_msg })
    }
}

/// Read an attach or remove call's result: zero is success; anything
/// else surfaces the OS error code and message.
pub fn interpret_status_result(ret: i32, err_code: i32, err_msg: String) -> (r: Result<
    (),
    LibJailError,
>)
    ensures
        ret == 0 ==> r == Ok::<(), LibJailError>(()),
        ret != 0 ==> (r matches Err(e) && e@ == (ErrModel::ExternalError {
            code: err_code,
            message: err_msg@,
        })),
{
    if ret == 0 {
        Ok(())
    } else {
        Err(LibJailError::ExternalError { code: err_code, message: err_msg })
    }
}

/// Read a fetch call's result: a non-negative return means the
/// placeholders were filled; a negative one surfaces the OS error code
/// and message.
pub fn interpret_get_result(ret: i32, err_code: i32, err_msg: String) -> (r: Result<
    (),
    LibJailError,
>)
    ensures
        ret >= 0 ==> r == Ok::<(), LibJailError>(()),
        ret < 0 ==> (r matches Err(e) && e@ == (ErrModel::ExternalError {
            code: err_code,
            message: err_msg@,
        })),
{
    if ret >= 0 {
        Ok(())
    } else {
        Err(LibJailError::ExternalError { code: err_code, message: err_msg })
    }
}

/// Build the whole fetch request for a list of parameter names and an
/// index: placeholders for every readable name, the index entry merged
/// in.
pub fn prepare_get_request(keys: &Vec<String>, index: &Index) -> (r: Result<
    ParameterSet,
    LibJailError,
>)
    ensures
        r matches Ok(ps) ==> ps.wf() && index_ok(index@) && (exists|
            lk: Seq<Result<LeafModel, SchemaFail>>,
        |
            #![trigger lk.len()]
            lk.len() == keys@.len() && ps@ =~= spec_insert(
                spec_plan_fold(Seq::new(keys@.len(), |i: int| (keys@[i]@, lk[i]))),
                cstr_of(spec_index_key(index@)),
                spec_index_val(index@),
            )),
{
    let mut ps = match prepare_rules(keys) {
        Ok(ps) => ps,
        Err(e) => {
            return Err(e);
        },
    };
    let ghost mid = ps@;
    match add_index(&mut ps, index) {
        Ok(_) => {
            proof {
                let lk = choose|lk: Seq<Result<LeafModel, SchemaFail>>|
                    #![trigger lk.len()]
                    lk.len() == keys@.len() && mid == spec_plan_fold(
                        Seq::new(keys@.len(), |i: int| (keys@[i]@, lk[i])),
                    );
                assert(lk.len() == keys@.len());
            }
            Ok(ps)
        },
        Err(e) => Err(e),
    }
}

/// The set of requests `get_rules_all` makes: exactly the names the
/// registry holds, each once, plus the index entry.
pub fn prepare_all_request(reg: &SchemaRegistry, index: &Index) -> (r: Result<
    ParameterSet,
    LibJailError,
>)
    requires
        reg.wf(),
    ensures
        r matches Ok(ps) ==> ps.wf() && (forall|k: ValModel|
            #[trigger] has_key(ps@, k) ==> k == cstr_of(spec_index_key(index@)) || (exists|i: int|
                0 <= i < reg@.len() && k == cstr_of((#[trigger] reg@[i]).0))),
{
    let names = reg.names();
    let r = prepare_get_request(&names, index);
    proof {
        match &r {
            Ok(ps) => {
                let lk = choose|lk: Seq<Result<LeafModel, SchemaFail>>|
                    #![trigger lk.len()]
                    lk.len() == names@.len() && ps@ =~= spec_insert(
                        spec_plan_fold(Seq::new(names@.len(), |i: int| (names@[i]@, lk[i]))),
                        cstr_of(spec_index_key(index@)),
                        spec_index_val(index@),
                    );
                let pairs = Seq::new(names@.len(), |i: int| (names@[i]@, lk[i]));
                lemma_plan_fold_keys(pairs);
                assert forall|k: ValModel| #[trigger]
                    has_key(ps@, k) implies k == cstr_of(spec_index_key(index@)) || (exists|i: int|
                    0 <= i < reg@.len() && k == cstr_of((#[trigger] reg@[i]).0)) by {
                    lemma_insert_has_key(
                        spec_plan_fold(pairs),
                        cstr_of(spec_index_key(index@)),
                        spec_index_val(index@),
                        k,
                    );
                    if k != cstr_of(spec_index_key(index@)) {
                        assert(has_key(spec_plan_fold(pairs), k));
                        let i = choose|i: int|
                            0 <= i < pairs.len() && spec_plan_one(
                                (#[trigger] pairs[i]).0,
                                pairs[i].1,
                            ) == PlanModel::Add(k, spec_added_val(pairs[i].0, pairs[i].1));
                        assert(k == cstr_of(pairs[i].0));
                        assert(pairs[i].0 == names@[i]@);
                        assert(names@[i]@ == reg@[i].0);
                    }
                }
            },
            Err(_) => {},
        }
    }
    r
}

/// The models of a decoded output list.
pub open spec fn out_views(out: Seq<(String, OutVal)>) -> Seq<(Seq<char>, OutValModel)> {
    Seq::new(out.len(), |i: int| (out[i].0@, out[i].1@))
}

/// Finish a fetch call: interpret its result, rebuild the placeholders
/// from the value bytes the kernel wrote, and decode every pair.
pub fn finish_get(
    ps: &ParameterSet,
    ret: i32,
    err_code: i32,
    err_msg: String,
    new_bytes: &Vec<Vec<u8>>,
) -> (r: Result<Vec<(String, OutVal)>, LibJailError>)
    requires
        ps.wf(),
    ensures
        ret < 0 ==> (r matches Err(e) && e@ == (ErrModel::ExternalError {
            code: err_code,
            message: err_msg@,
        })),
        ret >= 0 ==> match spec_refill_all(ps@, bytes_views(new_bytes@)) {
            Option::None => r == Err::<Vec<(String, OutVal)>, LibJailError>(
                LibJailError::MismatchCtlValue,
            ),
            Option::Some(s2) => {
                &&& (r is Ok <==> spec_decode_all(s2) is Some)
                &&& (r matches Ok(out) ==> spec_decode_all(s2) == Some(out_views(out@)))
            },
        },
{
    if ret < 0 {
        return Err(LibJailError::ExternalError { code: err_code, message: err_msg });
    }
    let ps2 = match ps.refill_values(new_bytes) {
        Ok(ps2) => {
            proof {
                assert(ps2@ =~= spec_refill_all(ps@, bytes_views(new_bytes@))->Some_0);
            }
            ps2
        },
        Err(e) => {
            return Err(e);
        },
    };
    match ps2.decode_all() {
        Ok(out) => {
            proof {
                let s2 = spec_refill_all(ps@, bytes_views(new_bytes@))->Some_0;
                assert(spec_decode_all(s2) matches Some(ov) && ov =~= out_views(out@));
            }
            Ok(out)
        },
        Err(e) => Err(e),
    }
}

} // verus!
