//! Binding of reduced parameters to a command's definitions: named values
//! first, then flags by default, then values given by position, which fill
//! the mandatory definitions that are still open before the optional ones.

use vstd::prelude::*;
use crate::name_map::NameMap;
use crate::reduce::{params_view, ParamModel};
use crate::text::texts_view;
use crate::value::{
    defs_view, parse_value_via_definition, parsed_value, ArgumentValue, CallbackArgumentDefinition,
    CallbackArgumentType, CallbackArgumentValue, DefinitionModel,
};

verus! {

/// Why parameters could not be bound.
#[derive(Clone, Debug, PartialEq, Eq)]
pub enum BindError {
    /// The same name was given twice.
    DuplicateParameter(String),
    /// The raw value of the named parameter is no value of the kind asked
    /// for: the parameter's name, the kind, the raw value.
    ArgumentParseError(String, CallbackArgumentType, String),
    /// Fewer values were given by position than mandatory parameters are open.
    TooFewArguments,
    /// More values were given by position than parameters are open.
    TooManyArguments,
}

/// What a `BindError` says, with text as sequences of characters.
pub enum BindFailure {
    DuplicateParameter(Seq<char>),
    ArgumentParseError(Seq<char>, CallbackArgumentType, Seq<char>),
    TooFewArguments,
    TooManyArguments,
}

impl View for BindError {
    type V = BindFailure;

    open spec fn view(&self) -> BindFailure {
        match self {
            BindError::DuplicateParameter(n) => BindFailure::DuplicateParameter(n@),
            BindError::ArgumentParseError(n, k, raw) => BindFailure::ArgumentParseError(n@, *k, raw@),
            BindError::TooFewArguments => BindFailure::TooFewArguments,
            BindError::TooManyArguments => BindFailure::TooManyArguments,
        }
    }
}

/// The bound arguments of a call: each bound name with its value.
pub type BoundModel = Map<Seq<char>, ArgumentValue>;

/// The named parameters among `params`: each name with its raw value.
pub open spec fn named_of(params: Seq<ParamModel>) -> Map<Seq<char>, Seq<char>>
    decreases params.len(),
{
    if params.len() == 0 {
        Map::empty()
    } else if params.last().0.len() == 0 {
        named_of(params.drop_last())
    } else {
        named_of(params.drop_last()).insert(params.last().0, params.last().1)
    }
}

/// The raw values given by position among `params`, in the order typed.
pub open spec fn positional_of(params: Seq<ParamModel>) -> Seq<Seq<char>>
    decreases params.len(),
{
    if params.len() == 0 {
        Seq::empty()
    } else if params.last().0.len() == 0 {
        positional_of(params.drop_last()).push(params.last().1)
    } else {
        positional_of(params.drop_last())
    }
}

/// The first name, in the order typed, that an earlier parameter has
/// already given.
pub open spec fn duplicate_of(params: Seq<ParamModel>) -> Option<Seq<char>>
    decreases params.len(),
{
    if params.len() == 0 {
        None
    } else if duplicate_of(params.drop_last()) is Some {
        duplicate_of(params.drop_last())
    } else if params.last().0.len() > 0 && named_of(params.drop_last()).contains_key(
        params.last().0,
    ) {
        Some(params.last().0)
    } else {
        None
    }
}

/// Where binding stands after the definitions seen so far: the named values
/// not yet taken, the arguments bound, and the definitions still open.
pub struct NamedPass {
    pub named: Map<Seq<char>, Seq<char>>,
    pub bound: BoundModel,
    pub mandatory: Seq<DefinitionModel>,
    pub optional: Seq<DefinitionModel>,
}

/// Takes up one definition: its named value where one was given, else
/// `false` for a flag, else it stays open.
pub open spec fn named_step(st: NamedPass, d: DefinitionModel) -> Result<NamedPass, BindFailure> {
    if st.named.contains_key(d.name) {
        match parsed_value(st.named[d.name], d.kind) {
            Some(v) => Ok(
                NamedPass { named: st.named.remove(d.name), bound: st.bound.insert(d.name, v), ..st },
            ),
            None => Err(BindFailure::ArgumentParseError(d.name, d.kind, st.named[d.name])),
        }
    } else if d.kind == CallbackArgumentType::Flag {
        Ok(NamedPass { bound: st.bound.insert(d.name, ArgumentValue::Flag(false)), ..st })
    } else if d.optional {
        Ok(NamedPass { optional: st.optional.push(d), ..st })
    } else {
        Ok(NamedPass { mandatory: st.mandatory.push(d), ..st })
    }
}

/// Takes up the definitions in the order declared, and stops at the first
/// named value that cannot be read.
pub open spec fn named_pass(defs: Seq<DefinitionModel>, named: Map<Seq<char>, Seq<char>>) -> Result<
    NamedPass,
    BindFailure,
>
    decreases defs.len(),
{
    if defs.len() == 0 {
        Ok(NamedPass { named, bound: Map::empty(), mandatory: Seq::empty(), optional: Seq::empty() })
    } else {
        match named_pass(defs.drop_last(), named) {
            Ok(st) => named_step(st, defs.last()),
            Err(e) => Err(e),
        }
    }
}

/// Gives the values to the first open definitions, one each in order, and
/// stops at the first value that cannot be read.
pub open spec fn positional_pass(
    slots: Seq<DefinitionModel>,
    values: Seq<Seq<char>>,
    bound: BoundModel,
) -> Result<BoundModel, BindFailure>
    decreases values.len(),
{
    if values.len() == 0 || values.len() > slots.len() {
        Ok(bound)
    } else {
        let k = values.len() - 1;
        match positional_pass(slots, values.drop_last(), bound) {
            Ok(b) => match parsed_value(values[k], slots[k].kind) {
                Some(v) => Ok(b.insert(slots[k].name, v)),
                None => Err(BindFailure::ArgumentParseError(slots[k].name, slots[k].kind, values[k])),
            },
            Err(e) => Err(e),
        }
    }
}

/// What binding `params` to `defs` gives: the bound arguments, or the first
/// failure met.
pub open spec fn bind_result(params: Seq<ParamModel>, defs: Seq<DefinitionModel>) -> Result<
    BoundModel,
    BindFailure,
> {
    match duplicate_of(params) {
        Some(name) => Err(BindFailure::DuplicateParameter(name)),
        None => match named_pass(defs, named_of(params)) {
            Err(e) => Err(e),
            Ok(st) => {
                let values = positional_of(params);
                if values.len() < st.mandatory.len() {
                    Err(BindFailure::TooFewArguments)
                } else if values.len() > st.mandatory.len() + st.optional.len() {
                    Err(BindFailure::TooManyArguments)
                } else {
                    positional_pass(st.mandatory + st.optional, values, st.bound)
                }
            },
        },
    }
}

/// A name that is given twice among the first parameters is given twice
/// among them all.
pub proof fn lemma_duplicate_stays(params: Seq<ParamModel>, k: int)
    requires
        0 <= k <= params.len(),
        duplicate_of(params.take(k)) is Some,
    ensures
        duplicate_of(params) == duplicate_of(params.take(k)),
    decreases params.len() - k,
{
    if k == params.len() {
        assert(params.take(k) =~= params);
    } else {
        assert(params.take(k + 1).drop_last() =~= params.take(k));
        lemma_duplicate_stays(params, k + 1);
    }
}

/// A named value that cannot be read for one of the first definitions
/// fails the whole pass.
pub proof fn lemma_named_failure_stays(
    defs: Seq<DefinitionModel>,
    named: Map<Seq<char>, Seq<char>>,
    k: int,
)
    requires
        0 <= k <= defs.len(),
        named_pass(defs.take(k), named) is Err,
    ensures
        named_pass(defs, named) == named_pass(defs.take(k), named),
    decreases defs.len() - k,
{
    if k == defs.len() {
        assert(defs.take(k) =~= defs);
    } else {
        assert(defs.take(k + 1).drop_last() =~= defs.take(k));
        lemma_named_failure_stays(defs, named, k + 1);
    }
}

/// A value that cannot be read among the first values fails the whole pass.
pub proof fn lemma_positional_failure_stays(
    slots: Seq<DefinitionModel>,
    values: Seq<Seq<char>>,
    bound: BoundModel,
    k: int,
)
    requires
        0 <= k <= values.len() <= slots.len(),
        positional_pass(slots, values.take(k), bound) is Err,
    ensures
        positional_pass(slots, values, bound) == positional_pass(slots, values.take(k), bound),
    decreases values.len() - k,
{
    if k == values.len() {
        assert(values.take(k) =~= values);
    } else {
        assert(values.take(k + 1).drop_last() =~= values.take(k));
        lemma_positional_failure_stays(slots, values, bound, k + 1);
    }
}

/// The definitions of `defs` at the places `indices`.
pub open spec fn chosen(defs: Seq<DefinitionModel>, indices: Seq<usize>) -> Seq<DefinitionModel> {
    Seq::new(indices.len(), |i: int| defs[indices[i] as int])
}

/// Binds `params` to `defs`: all of them or none.
pub fn bind(params: &Vec<(String, String)>, defs: &Vec<CallbackArgumentDefinition>) -> (r: Result<
    NameMap<CallbackArgumentValue>,
    BindError,
>)
    ensures
        r matches Ok(bound) ==> bound.wf() && bind_result(params_view(params@), defs_view(defs@))
            == Ok::<BoundModel, BindFailure>(bound@),
        r matches Err(e) ==> bind_result(params_view(params@), defs_view(defs@)) == Err::<
            BoundModel,
            BindFailure,
        >(e@),
{
    let ghost pv = params_view(params@);
    let ghost dv = defs_view(defs@);
    let mut named: NameMap<String> = NameMap::new();
    let mut indexed_vals: Vec<String> = Vec::new();
    let mut i: usize = 0;
    assert(pv.take(0) =~= Seq::<ParamModel>::empty());
    assert(texts_view(indexed_vals@) =~= Seq::<Seq<char>>::empty());
    while i < params.len()
        invariant
            pv == params_view(params@),
            i <= params@.len(),
            named.wf(),
            duplicate_of(pv.take(i as int)) is None,
            named@ == named_of(pv.take(i as int)),
            texts_view(indexed_vals@) == positional_of(pv.take(i as int)),
        decreases params@.len() - i,
    {
        proof {
            assert(pv.take(i + 1).drop_last() =~= pv.take(i as int));
            assert(pv.take(i + 1).last() == (params@[i as int].0@, params@[i as int].1@));
        }
        let name = &params[i].0;
        let raw = &params[i].1;
        if name.as_str().unicode_len() == 0 {
            let ghost before = indexed_vals@;
            indexed_vals.push(raw.clone());
            assert(texts_view(indexed_vals@) =~= texts_view(before).push(raw@));
        } else {
            if named.contains_key(name.as_str()) {
                proof {
                    lemma_duplicate_stays(pv, i + 1);
                }
                return Err(BindError::DuplicateParameter(name.clone()));
            }
            let _ = named.insert(name.clone(), raw.clone());
        }
        i += 1;
    }
    assert(pv.take(params@.len() as int) =~= pv);

    let ghost named_all = named@;
    let mut complete_args: NameMap<CallbackArgumentValue> = NameMap::new();
    let mut missed_mandatory: Vec<usize> = Vec::new();
    let mut missed_optional: Vec<usize> = Vec::new();
    let mut j: usize = 0;
    assert(dv.take(0) =~= Seq::<DefinitionModel>::empty());
    assert(chosen(dv, missed_mandatory@) =~= Seq::<DefinitionModel>::empty());
    assert(chosen(dv, missed_optional@) =~= Seq::<DefinitionModel>::empty());
    while j < defs.len()
        invariant
            pv == params_view(params@),
            dv == defs_view(defs@),
            duplicate_of(pv) is None,
            named_all == named_of(pv),
            j <= defs@.len(),
            named.wf(),
            complete_args.wf(),
            forall|k: int| 0 <= k < missed_mandatory@.len() ==> missed_mandatory@[k] < defs@.len(),
            forall|k: int| 0 <= k < missed_optional@.len() ==> missed_optional@[k] < defs@.len(),
            named_pass(dv.take(j as int), named_all) == Ok::<NamedPass, BindFailure>(
                NamedPass {
                    named: named@,
                    bound: complete_args@,
                    mandatory: chosen(dv, missed_mandatory@),
                    optional: chosen(dv, missed_optional@),
                },
            ),
        decreases defs@.len() - j,
    {
        proof {
            assert(dv.take(j + 1).drop_last() =~= dv.take(j as int));
            assert(dv.take(j + 1).last() == defs@[j as int]@);
        }
        let def = &defs[j];
        let ghost named_before = named@;
        match named.remove(def.name.as_str()) {
            Some(value) => {
                match parse_value_via_definition(&value, def) {
                    Some(arg_value) => {
                        let _ = complete_args.insert(def.name.clone(), arg_value);
                    },
                    None => {
                        proof {
                            lemma_named_failure_stays(dv, named_all, j + 1);
                        }
                        return Err(
                            BindError::ArgumentParseError(def.name.clone(), def.cba_type, value),
                        );
                    },
                }
            },
            None => {
                assert(named@ =~= named_before);
                match def.cba_type {
                    CallbackArgumentType::Flag => {
                        let _ = complete_args.insert(
                            def.name.clone(),
                            CallbackArgumentValue::Flag(false),
                        );
                    },
                    _ => {
                        if def.optional {
                            let ghost before = missed_optional@;
                            missed_optional.push(j);
                            assert(chosen(dv, missed_optional@) =~= chosen(dv, before).push(dv[j as int]));
                        } else {
                            let ghost before = missed_mandatory@;
                            missed_mandatory.push(j);
                            assert(chosen(dv, missed_mandatory@) =~= chosen(dv, before).push(
                                dv[j as int],
                            ));
                        }
                    },
                }
            },
        }
        j += 1;
    }
    assert(dv.take(defs@.len() as int) =~= dv);

    let mandatory_len: usize = missed_mandatory.len();
    let optional_len: usize = missed_optional.len();
    let indexed_len: usize = indexed_vals.len();
    if indexed_len < mandatory_len {
        return Err(BindError::TooFewArguments);
    }
    if indexed_len - mandatory_len > optional_len {
        return Err(BindError::TooManyArguments);
    }
    let ghost slots = chosen(dv, missed_mandatory@) + chosen(dv, missed_optional@);
    let ghost values = texts_view(indexed_vals@);
    let ghost bound_before = complete_args@;
    let ghost named_left = named@;
    let mut k: usize = 0;
    assert(values.take(0) =~= Seq::<Seq<char>>::empty());
    while k < indexed_len
        invariant
            pv == params_view(params@),
            dv == defs_view(defs@),
            duplicate_of(pv) is None,
            values == positional_of(pv),
            named_pass(dv, named_of(pv)) == Ok::<NamedPass, BindFailure>(
                NamedPass {
                    named: named_left,
                    bound: bound_before,
                    mandatory: chosen(dv, missed_mandatory@),
                    optional: chosen(dv, missed_optional@),
                },
            ),
            indexed_len == indexed_vals@.len(),
            mandatory_len == missed_mandatory@.len(),
            optional_len == missed_optional@.len(),
            mandatory_len <= indexed_len <= mandatory_len + optional_len,
            k <= indexed_len,
            complete_args.wf(),
            forall|x: int| 0 <= x < missed_mandatory@.len() ==> missed_mandatory@[x] < defs@.len(),
            forall|x: int| 0 <= x < missed_optional@.len() ==> missed_optional@[x] < defs@.len(),
            slots == chosen(dv, missed_mandatory@) + chosen(dv, missed_optional@),
            values == texts_view(indexed_vals@),
            positional_pass(slots, values.take(k as int), bound_before) == Ok::<
                BoundModel,
                BindFailure,
            >(complete_args@),
        decreases indexed_len - k,
    {
        let slot: usize = if k < mandatory_len {
            missed_mandatory[k]
        } else {
            missed_optional[k - mandatory_len]
        };
        let missed_def = &defs[slot];
        proof {
            assert(values.take(k + 1).drop_last() =~= values.take(k as int));
            assert(values.take(k + 1).last() == indexed_vals@[k as int]@);
            assert(slots[k as int] == missed_def@);
        }
        match parse_value_via_definition(&indexed_vals[k], missed_def) {
            Some(arg_value) => {
                let _ = complete_args.insert(missed_def.name.clone(), arg_value);
            },
            None => {
                proof {
                    lemma_positional_failure_stays(slots, values, bound_before, k + 1);
                }
                return Err(
                    BindError::ArgumentParseError(
                        missed_def.name.clone(),
                        missed_def.cba_type,
                        indexed_vals[k].clone(),
                    ),
                );
            },
        }
        k += 1;
    }
    assert(values.take(indexed_len as int) =~= values);
    Ok(complete_args)
}

/// Every parameter of `params` has a name.
pub open spec fn all_named(params: Seq<ParamModel>) -> bool {
    forall|i: int| 0 <= i < params.len() ==> (#[trigger] params[i]).0.len() > 0
}

/// No two parameters of `params` have the same name.
pub open spec fn names_distinct(params: Seq<ParamModel>) -> bool {
    forall|i: int, j: int|
        0 <= i < j < params.len() ==> (#[trigger] params[i]).0 != (#[trigger] params[j]).0
}

/// Every parameter of `params` is a value given by position.
pub open spec fn all_positional(params: Seq<ParamModel>) -> bool {
    forall|i: int| 0 <= i < params.len() ==> (#[trigger] params[i]).0.len() == 0
}

/// Every definition of `defs` is mandatory and no flag.
pub open spec fn all_mandatory(defs: Seq<DefinitionModel>) -> bool {
    forall|i: int|
        0 <= i < defs.len() ==> !(#[trigger] defs[i]).optional && defs[i].kind
            != CallbackArgumentType::Flag
}

/// Parameters that are all named, each name once, hold no duplicate and no
/// value given by position, and map each name to the value typed with it.
pub proof fn lemma_named_parameters(params: Seq<ParamModel>)
    requires
        all_named(params),
        names_distinct(params),
    ensures
        duplicate_of(params) is None,
        positional_of(params) == Seq::<Seq<char>>::empty(),
        forall|i: int|
            0 <= i < params.len() ==> named_of(params).contains_key((#[trigger] params[i]).0)
                && named_of(params)[params[i].0] == params[i].1,
        forall|name: Seq<char>| #[trigger]
            named_of(params).contains_key(name) ==> exists|i: int|
                0 <= i < params.len() && (#[trigger] params[i]).0 == name,
    decreases params.len(),
{
    if params.len() > 0 {
        let rest = params.drop_last();
        let last = params.last();
        assert forall|i: int| 0 <= i < rest.len() implies (#[trigger] rest[i]).0.len() > 0 by {
            assert(rest[i] == params[i]);
        }
        assert forall|i: int, j: int| 0 <= i < j < rest.len() implies (#[trigger] rest[i]).0 != (
        #[trigger] rest[j]).0 by {
            assert(rest[i] == params[i] && rest[j] == params[j]);
        }
        lemma_named_parameters(rest);
        assert(params[params.len() - 1] == last);
        if named_of(rest).contains_key(last.0) {
            let i = choose|i: int| 0 <= i < rest.len() && (#[trigger] rest[i]).0 == last.0;
            assert(rest[i] == params[i]);
            assert(false);
        }
        assert forall|i: int| 0 <= i < params.len() implies named_of(params).contains_key(
            (#[trigger] params[i]).0,
        ) && named_of(params)[params[i].0] == params[i].1 by {
            if i < rest.len() {
                assert(rest[i] == params[i]);
                assert(params[i].0 != last.0);
            }
        }
        assert forall|name: Seq<char>| #[trigger]
            named_of(params).contains_key(name) implies exists|i: int|
            0 <= i < params.len() && (#[trigger] params[i]).0 == name by {
            if name == last.0 {
                assert(params[params.len() - 1].0 == name);
            } else {
                let i = choose|i: int| 0 <= i < rest.len() && (#[trigger] rest[i]).0 == name;
                assert(params[i] == rest[i]);
            }
        }
    }
}

/// Named parameters bind the same in whatever order they are typed: where
/// every parameter has a name, each name once, any rearrangement of the
/// parameters binds to the same arguments, or fails in the same way.
pub proof fn lemma_named_order_irrelevant(
    params: Seq<ParamModel>,
    rearranged: Seq<ParamModel>,
    defs: Seq<DefinitionModel>,
)
    requires
        all_named(params),
        names_distinct(params),
        params.to_multiset() == rearranged.to_multiset(),
    ensures
        bind_result(params, defs) == bind_result(rearranged, defs),
{
    let p = params;
    let q = rearranged;
    assert forall|x: ParamModel| p.contains(x) <==> q.contains(x) by {
        vstd::seq_lib::to_multiset_contains(p, x);
        vstd::seq_lib::to_multiset_contains(q, x);
    }
    assert(p.no_duplicates()) by {
        assert forall|i: int, j: int| 0 <= i < p.len() && 0 <= j < p.len() && i != j implies p[i]
            != p[j] by {
            if i < j {
                assert(p[i].0 != p[j].0);
            } else {
                assert(p[j].0 != p[i].0);
            }
        }
    }
    p.lemma_multiset_has_no_duplicates();
    q.lemma_multiset_has_no_duplicates_conv();
    assert forall|j: int| 0 <= j < q.len() implies (#[trigger] q[j]).0.len() > 0 by {
        assert(q.contains(q[j]));
        let i = choose|i: int| 0 <= i < p.len() && p[i] == q[j];
        assert(p[i].0.len() > 0);
    }
    assert forall|a: int, b: int| 0 <= a < b < q.len() implies (#[trigger] q[a]).0 != (
    #[trigger] q[b]).0 by {
        assert(q.contains(q[a]) && q.contains(q[b]));
        let i = choose|i: int| 0 <= i < p.len() && p[i] == q[a];
        let j = choose|j: int| 0 <= j < p.len() && p[j] == q[b];
        if q[a].0 == q[b].0 {
            if i < j {
                assert(p[i].0 != p[j].0);
            } else if j < i {
                assert(p[j].0 != p[i].0);
            }
            assert(q[a] == q[b]);
        }
    }
    lemma_named_parameters(p);
    lemma_named_parameters(q);
    assert forall|name: Seq<char>| named_of(p).contains_key(name) implies named_of(q).contains_key(
        name,
    ) && named_of(q)[name] == named_of(p)[name] by {
        let i = choose|i: int| 0 <= i < p.len() && (#[trigger] p[i]).0 == name;
        assert(p.contains(p[i]));
        let j = choose|j: int| 0 <= j < q.len() && q[j] == p[i];
        assert(named_of(q).contains_key(q[j].0));
    }
    assert forall|name: Seq<char>| named_of(q).contains_key(name) implies named_of(p).contains_key(
        name,
    ) by {
        let j = choose|j: int| 0 <= j < q.len() && (#[trigger] q[j]).0 == name;
        assert(q.contains(q[j]));
        let i = choose|i: int| 0 <= i < p.len() && p[i] == q[j];
        assert(named_of(p).contains_key(p[i].0));
    }
    assert(named_of(p) =~= named_of(q));
}

/// A flag that is not given is bound to `false`: a command whose one
/// parameter is a flag, called without parameters, has that flag bound to
/// `false` and nothing else.
pub proof fn lemma_flag_defaults_to_false(name: Seq<char>, optional: bool)
    ensures
        bind_result(
            Seq::empty(),
            seq![DefinitionModel { name, kind: CallbackArgumentType::Flag, optional }],
        ) == Ok::<BoundModel, BindFailure>(
            Map::<Seq<char>, ArgumentValue>::empty().insert(name, ArgumentValue::Flag(false)),
        ),
{
    let params = Seq::<ParamModel>::empty();
    let defs = seq![DefinitionModel { name, kind: CallbackArgumentType::Flag, optional }];
    assert(defs.drop_last() =~= Seq::<DefinitionModel>::empty());
    let start = NamedPass {
        named: Map::empty(),
        bound: Map::empty(),
        mandatory: Seq::empty(),
        optional: Seq::empty(),
    };
    assert(named_pass(defs.drop_last(), named_of(params)) == Ok::<NamedPass, BindFailure>(start));
    assert(named_pass(defs, named_of(params)) == named_step(start, defs.last()));
    assert(start.mandatory + start.optional =~= Seq::<DefinitionModel>::empty());
}

/// Values given by position have no names among them: they hold no
/// duplicate, and all of them count.
pub proof fn lemma_positional_parameters(params: Seq<ParamModel>)
    requires
        all_positional(params),
    ensures
        duplicate_of(params) is None,
        named_of(params) == Map::<Seq<char>, Seq<char>>::empty(),
        positional_of(params) == Seq::new(params.len(), |i: int| params[i].1),
    decreases params.len(),
{
    if params.len() > 0 {
        let rest = params.drop_last();
        assert forall|i: int| 0 <= i < rest.len() implies (#[trigger] rest[i]).0.len() == 0 by {
            assert(rest[i] == params[i]);
        }
        lemma_positional_parameters(rest);
        assert(params[params.len() - 1].0.len() == 0);
        assert(positional_of(params) =~= Seq::new(params.len(), |i: int| params[i].1));
    } else {
        assert(positional_of(params) =~= Seq::new(params.len(), |i: int| params[i].1));
    }
}

/// Where no parameter is named, mandatory definitions all stay open, in the
/// order declared, and nothing is bound yet.
pub proof fn lemma_mandatory_stay_open(defs: Seq<DefinitionModel>)
    requires
        all_mandatory(defs),
    ensures
        named_pass(defs, Map::empty()) == Ok::<NamedPass, BindFailure>(
            NamedPass {
                named: Map::empty(),
                bound: Map::empty(),
                mandatory: defs,
                optional: Seq::empty(),
            },
        ),
    decreases defs.len(),
{
    if defs.len() > 0 {
        let rest = defs.drop_last();
        assert forall|i: int| 0 <= i < rest.len() implies !(#[trigger] rest[i]).optional
            && rest[i].kind != CallbackArgumentType::Flag by {
            assert(rest[i] == defs[i]);
        }
        lemma_mandatory_stay_open(rest);
        assert(defs[defs.len() - 1] == defs.last());
        assert(rest.push(defs.last()) =~= defs);
    } else {
        assert(defs =~= Seq::<DefinitionModel>::empty());
    }
}

/// Where every value among the first `k` can be read for its definition,
/// giving them out succeeds.
pub proof fn lemma_positional_pass_succeeds(
    slots: Seq<DefinitionModel>,
    values: Seq<Seq<char>>,
    bound: BoundModel,
)
    requires
        values.len() <= slots.len(),
        forall|i: int| 0 <= i < values.len() ==> parsed_value(#[trigger] values[i], slots[i].kind) is Some,
    ensures
        positional_pass(slots, values, bound) is Ok,
    decreases values.len(),
{
    if values.len() > 0 {
        let rest = values.drop_last();
        assert forall|i: int| 0 <= i < rest.len() implies parsed_value(
            #[trigger] rest[i],
            slots[i].kind,
        ) is Some by {
            assert(rest[i] == values[i]);
        }
        lemma_positional_pass_succeeds(slots, rest, bound);
        assert(parsed_value(values[values.len() - 1], slots[values.len() - 1].kind) is Some);
    }
}

/// The number of values must match the number of mandatory parameters: a
/// command whose parameters are all mandatory, called with values by
/// position only, fails with too few arguments where fewer values are given
/// than it has parameters, and with too many where more are given. Where as
/// many are given, it fails for neither reason, and binds where each value
/// can be read for its parameter.
pub proof fn lemma_arity(params: Seq<ParamModel>, defs: Seq<DefinitionModel>)
    requires
        all_positional(params),
        all_mandatory(defs),
    ensures
        params.len() < defs.len() ==> bind_result(params, defs) == Err::<BoundModel, BindFailure>(
            BindFailure::TooFewArguments,
        ),
        params.len() > defs.len() ==> bind_result(params, defs) == Err::<BoundModel, BindFailure>(
            BindFailure::TooManyArguments,
        ),
        params.len() == defs.len() ==> bind_result(params, defs) != Err::<BoundModel, BindFailure>(
            BindFailure::TooFewArguments,
        ) && bind_result(params, defs) != Err::<BoundModel, BindFailure>(
            BindFailure::TooManyArguments,
        ),
        params.len() == defs.len() && (forall|i: int|
            0 <= i < params.len() ==> parsed_value((#[trigger] params[i]).1, defs[i].kind) is Some)
            ==> bind_result(params, defs) is Ok,
{
    lemma_positional_parameters(params);
    lemma_mandatory_stay_open(defs);
    let values = positional_of(params);
    assert(defs + Seq::<DefinitionModel>::empty() =~= defs);
    if params.len() == defs.len() {
        lemma_positional_pass_never_counts(defs, values, Map::empty());
        if forall|i: int|
            0 <= i < params.len() ==> parsed_value((#[trigger] params[i]).1, defs[i].kind) is Some {
            assert forall|i: int| 0 <= i < values.len() implies parsed_value(
                #[trigger] values[i],
                defs[i].kind,
            ) is Some by {
                assert(values[i] == params[i].1);
            }
            lemma_positional_pass_succeeds(defs, values, Map::empty());
        }
    }
}

/// Giving out values fails only for a value that cannot be read.
pub proof fn lemma_positional_pass_never_counts(
    slots: Seq<DefinitionModel>,
    values: Seq<Seq<char>>,
    bound: BoundModel,
)
    ensures
        positional_pass(slots, values, bound) matches Err(e) ==> e is ArgumentParseError,
    decreases values.len(),
{
    if values.len() > 0 && values.len() <= slots.len() {
        lemma_positional_pass_never_counts(slots, values.drop_last(), bound);
    }
}

/// The definitions of `defs` that a value given by position can fill, in
/// the order declared: those that are no flags, and mandatory or optional
/// as `optional` says.
pub open spec fn open_slots(defs: Seq<DefinitionModel>, optional: bool) -> Seq<DefinitionModel>
    decreases defs.len(),
{
    if defs.len() == 0 {
        Seq::empty()
    } else if defs.last().kind != CallbackArgumentType::Flag && defs.last().optional == optional {
        open_slots(defs.drop_last(), optional).push(defs.last())
    } else {
        open_slots(defs.drop_last(), optional)
    }
}

/// The flags of `defs`, each bound to `false`.
pub open spec fn flag_defaults(defs: Seq<DefinitionModel>) -> BoundModel
    decreases defs.len(),
{
    if defs.len() == 0 {
        Map::empty()
    } else if defs.last().kind == CallbackArgumentType::Flag {
        flag_defaults(defs.drop_last()).insert(defs.last().name, ArgumentValue::Flag(false))
    } else {
        flag_defaults(defs.drop_last())
    }
}

/// Where no parameter is named, every flag is bound to `false`, and the
/// other definitions stay open: the mandatory ones and the optional ones,
/// each group in the order declared.
pub proof fn lemma_unnamed_pass(defs: Seq<DefinitionModel>)
    ensures
        named_pass(defs, Map::empty()) == Ok::<NamedPass, BindFailure>(
            NamedPass {
                named: Map::empty(),
                bound: flag_defaults(defs),
                mandatory: open_slots(defs, false),
                optional: open_slots(defs, true),
            },
        ),
    decreases defs.len(),
{
    if defs.len() > 0 {
        lemma_unnamed_pass(defs.drop_last());
    }
}

/// Values given by position fill the mandatory parameters before the
/// optional ones, and within each group in the order declared: where no
/// parameter is named, the values go, one each, to the mandatory
/// definitions that are no flags, in the order declared, and what is left
/// of them to the optional ones, in the order declared. Too few values for
/// the mandatory definitions, or more than there are definitions to fill,
/// fail.
pub proof fn lemma_positional_fill_order(params: Seq<ParamModel>, defs: Seq<DefinitionModel>)
    requires
        all_positional(params),
    ensures
        bind_result(params, defs) == (if params.len() < open_slots(defs, false).len() {
            Err::<BoundModel, BindFailure>(BindFailure::TooFewArguments)
        } else if params.len() > open_slots(defs, false).len() + open_slots(defs, true).len() {
            Err::<BoundModel, BindFailure>(BindFailure::TooManyArguments)
        } else {
            positional_pass(
                open_slots(defs, false) + open_slots(defs, true),
                Seq::new(params.len(), |i: int| params[i].1),
                flag_defaults(defs),
            )
        }),
{
    lemma_positional_parameters(params);
    lemma_unnamed_pass(defs);
}

} // verus!
