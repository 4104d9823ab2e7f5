//! The primitives of a filter, one after the other: each input is resolved
//! (the source graphic, its alpha, or an earlier named result) and the
//! primitive's form is built. Regions come written out, and the caller's own
//! region value `B` is carried along with each result unchanged.

use vstd::prelude::*;

use super::filter_graph::{
    blend_made, composite_made, flood_made, luminance_made, merge_made, offset_made, room,
    source_alpha_made, transfer_value_made, CompositeOperator, FilterForms, FilterRect, FloodPaint,
    TransferFunctions, alpha_transfer_error, arithmetic_error, forms_of,
};
use super::paint::BlendMode;
use super::resources::{same_but_resources, ResourcesView};
use super::PdfConverter;
use crate::tex_engine::is_literal;
use crate::text::views;

verus! {

/// Where a primitive takes an input from.
pub enum FilterInput {
    SourceGraphic,
    SourceAlpha,
    Reference(String),
}

/// An input as a value.
pub enum InputView {
    SourceGraphic,
    SourceAlpha,
    Reference(Seq<char>),
}

impl View for FilterInput {
    type V = InputView;

    open spec fn view(&self) -> InputView {
        match self {
            FilterInput::SourceGraphic => InputView::SourceGraphic,
            FilterInput::SourceAlpha => InputView::SourceAlpha,
            FilterInput::Reference(name) => InputView::Reference(name@),
        }
    }
}

/// A filter result: its forms and the caller's region for it.
pub struct FilterValue<B> {
    pub forms: FilterForms,
    pub bbox: B,
}

/// A filter result as values.
pub struct ValueView<B> {
    pub form: Seq<char>,
    pub alpha: Seq<char>,
    pub bbox: B,
}

pub open spec fn value_view<B>(v: FilterValue<B>) -> ValueView<B> {
    ValueView { form: v.forms.form_name@, alpha: v.forms.alpha_form_name@, bbox: v.bbox }
}

/// A result kept under the name that later primitives refer to it by.
pub struct NamedResult<B> {
    pub name: String,
    pub value: FilterValue<B>,
}

pub open spec fn results_view<B>(rs: Seq<NamedResult<B>>) -> Seq<(Seq<char>, ValueView<B>)> {
    rs.map_values(|r: NamedResult<B>| (r.name@, value_view(r.value)))
}

/// The result last kept under `name` (a later result of the same name
/// replaces an earlier one).
pub open spec fn last_result<B>(results: Seq<(Seq<char>, ValueView<B>)>, name: Seq<char>) -> Option<ValueView<B>>
    decreases results.len(),
{
    if results.len() == 0 {
        None
    } else if results.last().0 == name {
        Some(results.last().1)
    } else {
        last_result(results.drop_last(), name)
    }
}

/// Why a reference to `name` cannot be resolved.
pub open spec fn missing_result_error(name: Seq<char>) -> Seq<char> {
    "Filter input '"@ + name + "' does not reference an earlier result"@
}

/// `input` resolves to `out`: the source graphic as it is; its alpha as a
/// black shape (interned over `page`) with the source's alpha form and region;
/// a reference as the result last kept under that name, or an error when
/// there is none.
pub open spec fn resolved<B>(
    old: ResourcesView,
    new: ResourcesView,
    out: Result<ValueView<B>, Seq<char>>,
    input: InputView,
    source: ValueView<B>,
    results: Seq<(Seq<char>, ValueView<B>)>,
    page: FilterRect,
) -> bool {
    match input {
        InputView::SourceGraphic => new == old && out == Ok::<ValueView<B>, Seq<char>>(source),
        InputView::SourceAlpha => exists|name: Seq<char>|
            #[trigger] source_alpha_made(old, new, name, source.alpha, page) && out == Ok::<ValueView<B>, Seq<char>>(
                ValueView { form: name, alpha: source.alpha, bbox: source.bbox },
            ),
        InputView::Reference(name) => new == old && out == match last_result(results, name) {
            Some(v) => Ok::<ValueView<B>, Seq<char>>(v),
            None => Err::<ValueView<B>, Seq<char>>(missing_result_error(name)),
        },
    }
}

pub open spec fn result_view<B>(r: Result<FilterValue<B>, String>) -> Result<ValueView<B>, Seq<char>> {
    match r {
        Ok(v) => Ok(value_view(v)),
        Err(e) => Err(e@),
    }
}

/// A copy of a filter result.
pub fn copy_value<B: Copy>(v: &FilterValue<B>) -> (r: FilterValue<B>)
    ensures
        value_view(r) == value_view(*v),
{
    FilterValue {
        forms: FilterForms { form_name: v.forms.form_name.clone(), alpha_form_name: v.forms.alpha_form_name.clone() },
        bbox: v.bbox,
    }
}

impl PdfConverter {
    /// Resolves one input of a primitive.
    pub fn resolve_filter_input<B: Copy>(
        &mut self,
        input: &FilterInput,
        source: &FilterValue<B>,
        results: &Vec<NamedResult<B>>,
        page: &FilterRect,
    ) -> (r: Result<FilterValue<B>, String>)
        requires
            room(old(self).resources@, 3),
        ensures
            resolved(
                old(self).resources@,
                final(self).resources@,
                result_view(r),
                input@,
                value_view(*source),
                results_view(results@),
                *page,
            ),
            final(self).resources@.wf(),
            final(self).resources@.next_id <= old(self).resources@.next_id + 3,
            same_but_resources(final(self), old(self)),
    {
        match input {
            FilterInput::SourceGraphic => Ok(copy_value(source)),
            FilterInput::SourceAlpha => {
                let ghost r0 = self.resources@;
                let form_name = self.ensure_source_alpha_form(source.forms.alpha_form_name.as_str(), page);
                let value = FilterValue {
                    forms: FilterForms { form_name, alpha_form_name: source.forms.alpha_form_name.clone() },
                    bbox: source.bbox,
                };
                proof {
                    let v = value_view(value);
                    assert(source_alpha_made(r0, self.resources@, v.form, value_view(*source).alpha, *page));
                }
                Ok(value)
            },
            FilterInput::Reference(name) => {
                let ghost rs = results_view(results@);
                let mut i: usize = results.len();
                proof {
                    assert(rs.take(rs.len() as int) =~= rs);
                }
                while i > 0
                    invariant
                        *self == *old(self),
                        old(self).resources@.wf(),
                        input@ == InputView::Reference(name@),
                        i <= results@.len(),
                        rs == results_view(results@),
                        last_result(rs, name@) == last_result(rs.take(i as int), name@),
                    decreases i,
                {
                    if is_literal(results[i - 1].name.as_str(), name.as_str()) {
                        let v = copy_value(&results[i - 1].value);
                        proof {
                            assert(rs.take(i as int).last() == rs[i - 1]);
                            assert(rs[i - 1] == (results@[i - 1].name@, value_view(results@[i - 1].value)));
                            assert(rs[i - 1].0 == name@);
                            assert(last_result(rs.take(i as int), name@) == Some(rs[i - 1].1));
                            assert(value_view(v) == rs[i - 1].1);
                            assert(result_view(Ok::<FilterValue<B>, String>(v)) == Ok::<ValueView<B>, Seq<char>>(rs[i - 1].1));
                        }
                        return Ok(v);
                    }
                    proof {
                        assert(rs.take(i as int).drop_last() =~= rs.take(i - 1));
                    }
                    i = i - 1;
                }
                let mut msg = String::new();
                msg.append("Filter input '");
                msg.append(name.as_str());
                msg.append("' does not reference an earlier result");
                Err(msg)
            },
        }
    }
}


// ---------------------------------------------------------------------------
// One primitive
// ---------------------------------------------------------------------------

/// A filter primitive, as far as its native rendering reads it. An
/// `feImage` comes with the form of its rendered content; colour matrices and
/// primitives without a native rendering come with their description.
pub enum FilterStep {
    Flood { paint: FloodPaint },
    Offset { input: FilterInput, dx: String, dy: String },
    Image { form_name: String },
    LuminanceToAlpha { input: FilterInput },
    OtherColorMatrix { description: String },
    ComponentTransfer { input: FilterInput, transfer: TransferFunctions, alpha_identity: bool, rgb_identity: bool },
    Blend { source: FilterInput, backdrop: FilterInput, mode: BlendMode },
    Merge { inputs: Vec<FilterInput> },
    Tile { input: FilterInput },
    Composite { source: FilterInput, backdrop: FilterInput, operator: CompositeOperator },
    Other { description: String },
}

/// What a primitive gives: its result, or for `feTile` the resolved input
/// whose tiles the caller draws (their placement is floating point).
pub enum StepOutcome<B> {
    Value(FilterValue<B>),
    TileOf(FilterValue<B>),
}

/// The outcome as values.
pub enum OutcomeView<B> {
    Value(ValueView<B>),
    TileOf(ValueView<B>),
}

pub open spec fn outcome_view<B>(r: Result<StepOutcome<B>, String>) -> Result<OutcomeView<B>, Seq<char>> {
    match r {
        Ok(StepOutcome::Value(v)) => Ok(OutcomeView::Value(value_view(v))),
        Ok(StepOutcome::TileOf(v)) => Ok(OutcomeView::TileOf(value_view(v))),
        Err(e) => Err(e@),
    }
}

/// A result whose alpha form is its colour form.
pub open spec fn single<B>(name: Seq<char>, bbox: B) -> ValueView<B> {
    ValueView { form: name, alpha: name, bbox }
}

pub open spec fn value_out<B>(v: ValueView<B>) -> Result<OutcomeView<B>, Seq<char>> {
    Ok(OutcomeView::Value(v))
}

/// The room a primitive may need in the object numbering.
pub open spec fn step_room(step: FilterStep) -> nat {
    match step {
        FilterStep::Flood { .. } => 2,
        FilterStep::Offset { .. } => 4,
        FilterStep::Image { .. } => 3,
        FilterStep::LuminanceToAlpha { .. } => 6,
        FilterStep::ComponentTransfer { .. } => 6,
        FilterStep::Blend { .. } => 8,
        FilterStep::Merge { inputs } => 3 * inputs@.len() + 1,
        FilterStep::Tile { .. } => 3,
        FilterStep::Composite { .. } => 13,
        _ => 0,
    }
}

/// The native rendering of `step` over `rect` gives `out`; `bbox` is the
/// caller's region for the result.
pub open spec fn step_made<B>(
    old: ResourcesView,
    new: ResourcesView,
    out: Result<OutcomeView<B>, Seq<char>>,
    step: FilterStep,
    rect: FilterRect,
    bbox: B,
    page: FilterRect,
    source: ValueView<B>,
    results: Seq<(Seq<char>, ValueView<B>)>,
) -> bool {
    match step {
        FilterStep::Flood { paint } => exists|name: Seq<char>|
            #[trigger] flood_made(old, new, name, paint.key@, paint.rgb@, paint.opacity@, paint.translucent, rect)
                && out == value_out(single(name, bbox)),
        FilterStep::Offset { input, dx, dy } => exists|mid: ResourcesView, r: Result<ValueView<B>, Seq<char>>|
            #[trigger] resolved(old, mid, r, input@, source, results, page) && match r {
                Err(e) => new == mid && out == Err::<OutcomeView<B>, Seq<char>>(e),
                Ok(v) => exists|name: Seq<char>|
                    #[trigger] offset_made(mid, new, name, v.form, rect, dx@, dy@) && out == value_out(single(name, bbox)),
            },
        FilterStep::Image { form_name } => exists|alpha: Seq<char>|
            #[trigger] source_alpha_made(old, new, alpha, form_name@, page)
                && out == value_out(ValueView { form: form_name@, alpha, bbox }),
        FilterStep::LuminanceToAlpha { input } => exists|mid: ResourcesView, r: Result<ValueView<B>, Seq<char>>|
            #[trigger] resolved(old, mid, r, input@, source, results, page) && match r {
                Err(e) => new == mid && out == Err::<OutcomeView<B>, Seq<char>>(e),
                Ok(v) => exists|name: Seq<char>|
                    #[trigger] luminance_made(mid, new, name, rect, v.form) && out == value_out(single(name, bbox)),
            },
        FilterStep::OtherColorMatrix { description } => new == old && out == Err::<OutcomeView<B>, Seq<char>>(
            "Unsupported native feColorMatrix variant: "@ + description@,
        ),
        FilterStep::ComponentTransfer { input, transfer, alpha_identity, rgb_identity } => exists|
            mid: ResourcesView,
            r: Result<ValueView<B>, Seq<char>>,
        |
            #[trigger] resolved(old, mid, r, input@, source, results, page) && match r {
                Err(e) => new == mid && out == Err::<OutcomeView<B>, Seq<char>>(e),
                Ok(v) => if !alpha_identity {
                    new == mid && out == Err::<OutcomeView<B>, Seq<char>>(alpha_transfer_error())
                } else {
                    exists|f: Seq<char>, a: Seq<char>|
                        #[trigger] transfer_value_made(mid, new, (f, a), rect, (v.form, v.alpha), transfer, rgb_identity)
                            && out == value_out(ValueView { form: f, alpha: a, bbox })
                },
            },
        FilterStep::Blend { source: s_in, backdrop: b_in, mode } => exists|
            m1: ResourcesView,
            r1: Result<ValueView<B>, Seq<char>>,
        |
            #[trigger] resolved(old, m1, r1, s_in@, source, results, page) && match r1 {
                Err(e) => new == m1 && out == Err::<OutcomeView<B>, Seq<char>>(e),
                Ok(s) => exists|m2: ResourcesView, r2: Result<ValueView<B>, Seq<char>>|
                    #[trigger] resolved(m1, m2, r2, b_in@, source, results, page) && match r2 {
                        Err(e) => new == m2 && out == Err::<OutcomeView<B>, Seq<char>>(e),
                        Ok(b) => exists|name: Seq<char>|
                            #[trigger] blend_made(m2, new, name, rect, b.form, s.form, mode)
                                && out == value_out(single(name, bbox)),
                    },
            },
        FilterStep::Merge { inputs } => exists|mid: ResourcesView, r: Result<Seq<Seq<char>>, Seq<char>>|
            #[trigger] resolved_all(old, mid, r, input_views(inputs@), source, results, page) && match r {
                Err(e) => new == mid && out == Err::<OutcomeView<B>, Seq<char>>(e),
                Ok(names) => exists|name: Seq<char>|
                    #[trigger] merge_made(mid, new, name, names, rect) && out == value_out(single(name, bbox)),
            },
        FilterStep::Tile { input } => exists|r: Result<ValueView<B>, Seq<char>>|
            #[trigger] resolved(old, new, r, input@, source, results, page) && out == match r {
                Err(e) => Err::<OutcomeView<B>, Seq<char>>(e),
                Ok(v) => Ok::<OutcomeView<B>, Seq<char>>(OutcomeView::TileOf(v)),
            },
        FilterStep::Composite { source: s_in, backdrop: b_in, operator } => exists|
            m1: ResourcesView,
            r1: Result<ValueView<B>, Seq<char>>,
        |
            #[trigger] resolved(old, m1, r1, s_in@, source, results, page) && match r1 {
                Err(e) => new == m1 && out == Err::<OutcomeView<B>, Seq<char>>(e),
                Ok(s) => exists|m2: ResourcesView, r2: Result<ValueView<B>, Seq<char>>|
                    #[trigger] resolved(m1, m2, r2, b_in@, source, results, page) && match r2 {
                        Err(e) => new == m2 && out == Err::<OutcomeView<B>, Seq<char>>(e),
                        Ok(b) => if operator == CompositeOperator::Arithmetic {
                            new == m2 && out == Err::<OutcomeView<B>, Seq<char>>(arithmetic_error())
                        } else {
                            exists|f: Seq<char>, a: Seq<char>|
                                #[trigger] composite_made(m2, new, (f, a), rect, (s.form, s.alpha), (b.form, b.alpha), operator)
                                    && out == value_out(ValueView { form: f, alpha: a, bbox })
                        },
                    },
            },
        FilterStep::Other { description } => new == old && out == Err::<OutcomeView<B>, Seq<char>>(
            "Unsupported native filter primitive: "@ + description@,
        ),
    }
}

/// The inputs as values.
pub open spec fn input_views(inputs: Seq<FilterInput>) -> Seq<InputView> {
    inputs.map_values(|i: FilterInput| i@)
}

/// The inputs resolve one after the other over the registries `states` (the
/// first before the first input, each next one after it) to the results `vals`.
pub open spec fn resolved_trace<B>(
    states: Seq<ResourcesView>,
    vals: Seq<ValueView<B>>,
    inputs: Seq<InputView>,
    source: ValueView<B>,
    results: Seq<(Seq<char>, ValueView<B>)>,
    page: FilterRect,
) -> bool {
    &&& states.len() == inputs.len() + 1
    &&& vals.len() == inputs.len()
    &&& forall|i: int|
        0 <= i < inputs.len() ==> #[trigger] resolved(
            states[i],
            states[i + 1],
            Ok::<ValueView<B>, Seq<char>>(vals[i]),
            inputs[i],
            source,
            results,
            page,
        )
}

/// The colour forms of results.
pub open spec fn forms_of_values<B>(vals: Seq<ValueView<B>>) -> Seq<Seq<char>> {
    vals.map_values(|v: ValueView<B>| v.form)
}

/// The inputs resolve one after the other to the colour forms `out`, or to
/// the first error (after which no input is resolved).
pub open spec fn resolved_all<B>(
    old: ResourcesView,
    new: ResourcesView,
    out: Result<Seq<Seq<char>>, Seq<char>>,
    inputs: Seq<InputView>,
    source: ValueView<B>,
    results: Seq<(Seq<char>, ValueView<B>)>,
    page: FilterRect,
) -> bool {
    match out {
        Ok(names) => exists|states: Seq<ResourcesView>, vals: Seq<ValueView<B>>|
            #[trigger] resolved_trace(states, vals, inputs, source, results, page)
                && states[0] == old && states.last() == new && names == forms_of_values(vals),
        Err(e) => exists|k: int, states: Seq<ResourcesView>, vals: Seq<ValueView<B>>|
            #[trigger] resolved_trace(states, vals, inputs.take(k), source, results, page)
                && 0 <= k < inputs.len() && states[0] == old
                && resolved(states.last(), new, Err::<ValueView<B>, Seq<char>>(e), inputs[k], source, results, page),
    }
}

impl PdfConverter {
    /// Renders one primitive natively over `rect` (`bbox` is the caller's
    /// region for the result, `page` the whole page), given the source graphic
    /// and the results kept so far.
    pub fn apply_filter_step<B: Copy>(
        &mut self,
        step: &FilterStep,
        rect: &FilterRect,
        bbox: B,
        page: &FilterRect,
        source: &FilterValue<B>,
        results: &Vec<NamedResult<B>>,
    ) -> (r: Result<StepOutcome<B>, String>)
        requires
            room(old(self).resources@, step_room(*step)),
        ensures
            step_made(
                old(self).resources@,
                final(self).resources@,
                outcome_view(r),
                *step,
                *rect,
                bbox,
                *page,
                value_view(*source),
                results_view(results@),
            ),
            final(self).resources@.wf(),
            final(self).resources@.next_id <= old(self).resources@.next_id + step_room(*step),
            same_but_resources(final(self), old(self)),
    {
        let ghost r0 = self.resources@;
        let ghost src = value_view(*source);
        let ghost rs = results_view(results@);
        match step {
            FilterStep::Flood { paint } => {
                let name = self.ensure_flood_form(rect, paint);
                let out = FilterValue { forms: FilterForms { form_name: name.clone(), alpha_form_name: name }, bbox };
                proof {
                    let n = value_view(out).form;
                    assert(flood_made(r0, self.resources@, n, paint.key@, paint.rgb@, paint.opacity@, paint.translucent, *rect));
                    assert(value_view(out) == single(n, bbox));
                }
                Ok(StepOutcome::Value(out))
            },
            FilterStep::Offset { input, dx, dy } => {
                let resolved_input = self.resolve_filter_input(input, source, results, page);
                let ghost r1 = self.resources@;
                let ghost rv = result_view(resolved_input);
                proof {
                    assert(resolved(r0, r1, rv, input@, src, rs, *page));
                }
                match resolved_input {
                    Err(e) => {
                        proof {
                            assert(rv == Err::<ValueView<B>, Seq<char>>(e@));
                        }
                        Err(e)
                    },
                    Ok(v) => {
                        let name = self.ensure_offset_form(v.forms.form_name.as_str(), rect, dx.as_str(), dy.as_str());
                        let out = FilterValue { forms: FilterForms { form_name: name.clone(), alpha_form_name: name }, bbox };
                        proof {
                            let n = value_view(out).form;
                            assert(rv->Ok_0 == value_view(v));
                            assert(offset_made(r1, self.resources@, n, (rv->Ok_0).form, *rect, dx@, dy@));
                            assert(value_view(out) == single(n, bbox));
                        }
                        Ok(StepOutcome::Value(out))
                    },
                }
            },
            FilterStep::Image { form_name } => {
                let alpha = self.ensure_source_alpha_form(form_name.as_str(), page);
                let out = FilterValue {
                    forms: FilterForms { form_name: form_name.clone(), alpha_form_name: alpha },
                    bbox,
                };
                proof {
                    let a = value_view(out).alpha;
                    assert(source_alpha_made(r0, self.resources@, a, form_name@, *page));
                    assert(value_view(out) == (ValueView { form: form_name@, alpha: a, bbox }));
                }
                Ok(StepOutcome::Value(out))
            },
            FilterStep::LuminanceToAlpha { input } => {
                let resolved_input = self.resolve_filter_input(input, source, results, page);
                let ghost r1 = self.resources@;
                let ghost rv = result_view(resolved_input);
                proof {
                    assert(resolved(r0, r1, rv, input@, src, rs, *page));
                }
                match resolved_input {
                    Err(e) => {
                        proof {
                            assert(rv == Err::<ValueView<B>, Seq<char>>(e@));
                        }
                        Err(e)
                    },
                    Ok(v) => {
                        let name = self.ensure_luminance_to_alpha_form(rect, v.forms.form_name.as_str());
                        let out = FilterValue { forms: FilterForms { form_name: name.clone(), alpha_form_name: name }, bbox };
                        proof {
                            let n = value_view(out).form;
                            let vv = value_view(v);
                            assert(rv->Ok_0 == vv);
                            assert(luminance_made(r1, self.resources@, n, *rect, (rv->Ok_0).form));
                            assert(value_view(out) == single(n, bbox));
                        }
                        Ok(StepOutcome::Value(out))
                    },
                }
            },
            FilterStep::OtherColorMatrix { description } => {
                let mut msg = String::new();
                msg.append("Unsupported native feColorMatrix variant: ");
                msg.append(description.as_str());
                Err(msg)
            },
            FilterStep::ComponentTransfer { input, transfer, alpha_identity, rgb_identity } => {
                let resolved_input = self.resolve_filter_input(input, source, results, page);
                let ghost r1 = self.resources@;
                let ghost rv = result_view(resolved_input);
                proof {
                    assert(resolved(r0, r1, rv, input@, src, rs, *page));
                }
                match resolved_input {
                    Err(e) => {
                        proof {
                            assert(rv == Err::<ValueView<B>, Seq<char>>(e@));
                        }
                        Err(e)
                    },
                    Ok(v) => {
                        proof {
                            assert(rv->Ok_0 == value_view(v));
                        }
                        match self.ensure_component_transfer_filter_value(rect, &v.forms, transfer, *alpha_identity, *rgb_identity) {
                            Err(e) => Err(e),
                            Ok(forms) => {
                                let out = FilterValue { forms, bbox };
                                proof {
                                    let o = value_view(out);
                                    assert(transfer_value_made(
                                        r1,
                                        self.resources@,
                                        (o.form, o.alpha),
                                        *rect,
                                        ((rv->Ok_0).form, (rv->Ok_0).alpha),
                                        *transfer,
                                        *rgb_identity,
                                    ));
                                    assert(o == (ValueView { form: o.form, alpha: o.alpha, bbox }));
                                }
                                Ok(StepOutcome::Value(out))
                            },
                        }
                    },
                }
            },
            FilterStep::Blend { source: s_in, backdrop: b_in, mode } => {
                let first = self.resolve_filter_input(s_in, source, results, page);
                let ghost r1 = self.resources@;
                let ghost rv1 = result_view(first);
                proof {
                    assert(resolved(r0, r1, rv1, s_in@, src, rs, *page));
                }
                match first {
                    Err(e) => {
                        proof {
                            assert(rv1 == Err::<ValueView<B>, Seq<char>>(e@));
                        }
                        Err(e)
                    },
                    Ok(sv) => {
                        let second = self.resolve_filter_input(b_in, source, results, page);
                        let ghost r2 = self.resources@;
                        let ghost rv2 = result_view(second);
                        proof {
                            assert(rv1->Ok_0 == value_view(sv));
                            assert(resolved(r1, r2, rv2, b_in@, src, rs, *page));
                        }
                        match second {
                            Err(e) => {
                                proof {
                                    assert(rv2 == Err::<ValueView<B>, Seq<char>>(e@));
                                }
                                Err(e)
                            },
                            Ok(bv) => {
                                let name = self.ensure_blend_form(
                                    rect,
                                    bv.forms.form_name.as_str(),
                                    sv.forms.form_name.as_str(),
                                    *mode,
                                );
                                let out = FilterValue {
                                    forms: FilterForms { form_name: name.clone(), alpha_form_name: name },
                                    bbox,
                                };
                                proof {
                                    let n = value_view(out).form;
                                    assert(rv2->Ok_0 == value_view(bv));
                                    assert(blend_made(r2, self.resources@, n, *rect, (rv2->Ok_0).form, (rv1->Ok_0).form, *mode));
                                    assert(value_view(out) == single(n, bbox));
                                }
                                Ok(StepOutcome::Value(out))
                            },
                        }
                    },
                }
            },
            FilterStep::Merge { inputs } => {
                let ghost ins = input_views(inputs@);
                let mut names: Vec<String> = Vec::new();
                let mut i: usize = 0;
                let ghost mut states: Seq<ResourcesView> = seq![r0];
                let ghost mut vals: Seq<ValueView<B>> = Seq::empty();
                proof {
                    assert(views(names@) =~= forms_of_values(vals));
                    assert(resolved_trace(states, vals, ins.take(0), src, rs, *page));
                }
                while i < inputs.len()
                    invariant
                        *step == (FilterStep::Merge { inputs: *inputs }),
                        r0 == old(self).resources@,
                        ins == input_views(inputs@),
                        i <= inputs@.len(),
                        room(r0, 3 * inputs@.len() + 1),
                        self.resources@.wf(),
                        self.resources@.next_id <= r0.next_id + 3 * i,
                        same_but_resources(self, old(self)),
                        src == value_view(*source),
                        rs == results_view(results@),
                        resolved_trace(states, vals, ins.take(i as int), src, rs, *page),
                        states[0] == r0,
                        states.last() == self.resources@,
                        views(names@) == forms_of_values(vals),
                    decreases inputs@.len() - i,
                {
                    let ghost cur = self.resources@;
                    let ghost before = views(names@);
                    let res = self.resolve_filter_input(&inputs[i], source, results, page);
                    let ghost next = self.resources@;
                    let ghost rv = result_view(res);
                    proof {
                        assert(ins[i as int] == inputs@[i as int]@);
                        assert(resolved(cur, next, rv, ins[i as int], src, rs, *page));
                    }
                    match res {
                        Err(e) => {
                            proof {
                                assert(rv == Err::<ValueView<B>, Seq<char>>(e@));
                                assert(resolved(states.last(), next, Err::<ValueView<B>, Seq<char>>(e@), ins[i as int], src, rs, *page));
                                assert(resolved_all(r0, next, Err::<Seq<Seq<char>>, Seq<char>>(e@), ins, src, rs, *page));
                                assert(3 * i + 3 <= 3 * inputs@.len());
                                assert(*step is Merge);
                                assert(step->Merge_inputs == *inputs);
                                assert(step_made(r0, next, Err::<OutcomeView<B>, Seq<char>>(e@), *step, *rect, bbox, *page, src, rs));
                            }
                            return Err(e);
                        },
                        Ok(v) => {
                            names.push(v.forms.form_name.clone());
                            proof {
                                let vv = value_view(v);
                                assert(rv == Ok::<ValueView<B>, Seq<char>>(vv));
                                let states2 = states.push(next);
                                let vals2 = vals.push(vv);
                                let ins2 = ins.take(i + 1);
                                assert forall|j: int| 0 <= j < ins2.len() implies #[trigger] resolved(
                                    states2[j],
                                    states2[j + 1],
                                    Ok::<ValueView<B>, Seq<char>>(vals2[j]),
                                    ins2[j],
                                    src,
                                    rs,
                                    *page,
                                ) by {
                                    if j < i {
                                        assert(ins2[j] == ins.take(i as int)[j]);
                                        assert(states2[j] == states[j]);
                                        assert(states2[j + 1] == states[j + 1]);
                                        assert(vals2[j] == vals[j]);
                                    } else {
                                        assert(ins2[j] == ins[i as int]);
                                    }
                                }
                                assert(resolved_trace(states2, vals2, ins2, src, rs, *page));
                                assert(views(names@) =~= before.push(vv.form));
                                assert(forms_of_values(vals2) =~= forms_of_values(vals).push(vv.form));
                                assert(views(names@) =~= forms_of_values(vals2));
                                states = states2;
                                vals = vals2;
                            }
                        },
                    }
                    i = i + 1;
                }
                proof {
                    assert(ins.take(i as int) =~= ins);
                }
                let ghost r1 = self.resources@;
                let name = self.ensure_merge_form(rect, &names);
                let out = FilterValue { forms: FilterForms { form_name: name.clone(), alpha_form_name: name }, bbox };
                proof {
                    let n = value_view(out).form;
                    assert(resolved_trace(states, vals, ins, src, rs, *page));
                    assert(resolved_all(r0, r1, Ok::<Seq<Seq<char>>, Seq<char>>(views(names@)), input_views(inputs@), src, rs, *page));
                    assert(merge_made(r1, self.resources@, n, views(names@), *rect));
                    assert(value_view(out) == single(n, bbox));
                }
                Ok(StepOutcome::Value(out))
            },
            FilterStep::Tile { input } => {
                let resolved_input = self.resolve_filter_input(input, source, results, page);
                proof {
                    assert(resolved(r0, self.resources@, result_view(resolved_input), input@, src, rs, *page));
                }
                match resolved_input {
                    Err(e) => Err(e),
                    Ok(v) => Ok(StepOutcome::TileOf(v)),
                }
            },
            FilterStep::Composite { source: s_in, backdrop: b_in, operator } => {
                let first = self.resolve_filter_input(s_in, source, results, page);
                let ghost r1 = self.resources@;
                let ghost rv1 = result_view(first);
                proof {
                    assert(resolved(r0, r1, rv1, s_in@, src, rs, *page));
                }
                match first {
                    Err(e) => {
                        proof {
                            assert(rv1 == Err::<ValueView<B>, Seq<char>>(e@));
                        }
                        Err(e)
                    },
                    Ok(sv) => {
                        let second = self.resolve_filter_input(b_in, source, results, page);
                        let ghost r2 = self.resources@;
                        let ghost rv2 = result_view(second);
                        proof {
                            assert(rv1->Ok_0 == value_view(sv));
                            assert(resolved(r1, r2, rv2, b_in@, src, rs, *page));
                        }
                        match second {
                            Err(e) => {
                                proof {
                                    assert(rv2 == Err::<ValueView<B>, Seq<char>>(e@));
                                }
                                Err(e)
                            },
                            Ok(bv) => {
                                proof {
                                    assert(rv2->Ok_0 == value_view(bv));
                                }
                                match self.ensure_composite_filter_value(rect, &sv.forms, &bv.forms, *operator) {
                                    Err(e) => Err(e),
                                    Ok(forms) => {
                                        let out = FilterValue { forms, bbox };
                                        proof {
                                            let o = value_view(out);
                                            assert(composite_made(
                                                r2,
                                                self.resources@,
                                                (o.form, o.alpha),
                                                *rect,
                                                ((rv1->Ok_0).form, (rv1->Ok_0).alpha),
                                                ((rv2->Ok_0).form, (rv2->Ok_0).alpha),
                                                *operator,
                                            ));
                                            assert(o == (ValueView { form: o.form, alpha: o.alpha, bbox }));
                                        }
                                        Ok(StepOutcome::Value(out))
                                    },
                                }
                            },
                        }
                    },
                }
            },
            FilterStep::Other { description } => {
                let mut msg = String::new();
                msg.append("Unsupported native filter primitive: ");
                msg.append(description.as_str());
                Err(msg)
            },
        }
    }
}
} // verus!
