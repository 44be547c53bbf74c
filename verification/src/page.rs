//! What the browser reads out of a parsed document: its forms and their
//! controls, link targets, stylesheet links, inline styles and the active
//! content that it ignores.

use vstd::prelude::*;

use crate::dom::{
    first_attribute, subtree, texts, Document, KindView, Node, NodeKind, NodeView, node_view,
};
use crate::forms::{
    control_view, option_view, ControlId, ControlKind, ControlView, FormControl, FormMethod,
    FormState, FormView, SelectOption,
};
use crate::dom::NodeId;
use crate::text::{
    ascii_lower, ascii_lowercase, contains_word, decimal, decimal_string, eq_ignore_ascii_case,
    has_word, push_char, starts_with, str_eq, str_starts_with,
};
use crate::url::{spec_url_host, spec_url_join, spec_url_port, spec_url_scheme, WebUrl};

verus! {

/// The value of attribute `name` of node `id`, when that node is an element.
pub open spec fn element_attribute(nodes: Seq<NodeView>, id: int, name: Seq<char>) -> Option<
    Seq<char>,
> {
    match nodes[id].kind {
        KindView::Element { attributes, .. } => first_attribute(attributes, name),
        _ => None,
    }
}

/// Whether node `id` is an element called `tag`.
pub open spec fn is_element(nodes: Seq<NodeView>, id: int, tag: Seq<char>) -> bool {
    nodes[id].kind matches KindView::Element { name, .. } && name == tag
}

pub open spec fn or_default(value: Option<Seq<char>>, default: Seq<char>) -> Seq<char> {
    match value {
        Some(v) => v,
        None => default,
    }
}

/// The kind of an `input` element of type `input_type`, compared in ASCII lower case.
pub open spec fn input_kind(input_type: Seq<char>) -> Option<ControlKind> {
    let t = ascii_lower(input_type);
    if t == "text"@ {
        Some(ControlKind::Text)
    } else if t == "password"@ {
        Some(ControlKind::Password)
    } else if t == "checkbox"@ {
        Some(ControlKind::Checkbox)
    } else if t == "radio"@ {
        Some(ControlKind::Radio)
    } else if t == "submit"@ {
        Some(ControlKind::Submit)
    } else if t == "button"@ {
        Some(ControlKind::Button)
    } else {
        None
    }
}

/// The value of an `input` control without a `value` attribute.
pub open spec fn default_input_value(kind: ControlKind) -> Seq<char> {
    if kind == ControlKind::Checkbox || kind == ControlKind::Radio {
        "on"@
    } else if kind == ControlKind::Submit {
        "Submit"@
    } else {
        Seq::empty()
    }
}

/// The kind of a `button` element of type `button_type`.
pub open spec fn button_kind(button_type: Seq<char>) -> Option<ControlKind> {
    if ascii_lower(button_type) == ascii_lower("submit"@) {
        Some(ControlKind::Submit)
    } else if ascii_lower(button_type) == ascii_lower("button"@) {
        Some(ControlKind::Button)
    } else {
        None
    }
}

/// Whether node `id` is an enabled `option` element.
pub open spec fn is_enabled_option(nodes: Seq<NodeView>, id: int) -> bool {
    is_element(nodes, id, "option"@) && element_attribute(nodes, id, "disabled"@) is None
}

/// The (value, label) of the enabled options among `ids`.
pub open spec fn option_list(nodes: Seq<NodeView>, ids: Seq<int>) -> Seq<(Seq<char>, Seq<char>)>
    decreases ids.len(),
{
    if ids.len() == 0 {
        Seq::empty()
    } else {
        let id = ids[0];
        let label = texts(nodes, subtree(nodes, id));
        let head = if is_enabled_option(nodes, id) {
            seq![(or_default(element_attribute(nodes, id, "value"@), label), label)]
        } else {
            Seq::empty()
        };
        head + option_list(nodes, ids.drop_first())
    }
}

/// Whether each enabled option among `ids` is marked `selected`.
pub open spec fn option_flags(nodes: Seq<NodeView>, ids: Seq<int>) -> Seq<bool>
    decreases ids.len(),
{
    if ids.len() == 0 {
        Seq::empty()
    } else {
        let id = ids[0];
        let head = if is_enabled_option(nodes, id) {
            seq![element_attribute(nodes, id, "selected"@) is Some]
        } else {
            Seq::empty()
        };
        head + option_flags(nodes, ids.drop_first())
    }
}

/// The first position from `k` on that holds `true`.
pub open spec fn first_true_from(flags: Seq<bool>, k: int) -> Option<int>
    decreases flags.len() - k,
{
    if k < 0 || k >= flags.len() {
        None
    } else if flags[k] {
        Some(k)
    } else {
        first_true_from(flags, k + 1)
    }
}

/// The initially selected option: the first marked one, else the first one.
pub open spec fn selected_option(flags: Seq<bool>) -> Option<usize> {
    match first_true_from(flags, 0) {
        Some(k) => Some(k as usize),
        None => if flags.len() > 0 {
            Some(0)
        } else {
            None
        },
    }
}

/// The form control that node `id` stands for, if any.
pub open spec fn control_spec(nodes: Seq<NodeView>, id: int) -> Option<ControlView> {
    match nodes[id].kind {
        KindView::Element { name: tag, attributes } => {
            let name = first_attribute(attributes, "name"@);
            let value = first_attribute(attributes, "value"@);
            if first_attribute(attributes, "disabled"@) is Some {
                None
            } else if tag == "input"@ {
                match input_kind(or_default(first_attribute(attributes, "type"@), "text"@)) {
                    Some(kind) => Some(
                        ControlView {
                            id: ControlId(id as u32),
                            name,
                            kind,
                            value: or_default(value, default_input_value(kind)),
                            checked: first_attribute(attributes, "checked"@) is Some,
                            options: Seq::empty(),
                            selected_index: None,
                        },
                    ),
                    None => None,
                }
            } else if tag == "select"@ {
                let ids = subtree(nodes, id);
                Some(
                    ControlView {
                        id: ControlId(id as u32),
                        name,
                        kind: ControlKind::Select,
                        value: Seq::empty(),
                        checked: false,
                        options: option_list(nodes, ids),
                        selected_index: selected_option(option_flags(nodes, ids)),
                    },
                )
            } else if tag == "button"@ {
                match button_kind(or_default(first_attribute(attributes, "type"@), "submit"@)) {
                    Some(kind) => Some(
                        ControlView {
                            id: ControlId(id as u32),
                            name,
                            kind,
                            value: or_default(value, texts(nodes, subtree(nodes, id))),
                            checked: false,
                            options: Seq::empty(),
                            selected_index: None,
                        },
                    ),
                    None => None,
                }
            } else {
                None
            }
        },
        _ => None,
    }
}

/// The controls that the nodes `ids` stand for, in order.
pub open spec fn controls_spec(nodes: Seq<NodeView>, ids: Seq<int>) -> Seq<ControlView>
    decreases ids.len(),
{
    if ids.len() == 0 {
        Seq::empty()
    } else {
        let head = match control_spec(nodes, ids[0]) {
            Some(control) => seq![control],
            None => Seq::empty(),
        };
        head + controls_spec(nodes, ids.drop_first())
    }
}

/// A form as the browser reads it: its action, its method and its controls.
#[verifier::ext_equal]
pub struct FormSpec {
    pub action: Seq<char>,
    pub method: FormMethod,
    pub controls: Seq<ControlView>,
}

/// The action of form `id`: its `action` attribute resolved against `base`, or
/// `base` when it is missing or does not resolve.
pub open spec fn form_action(nodes: Seq<NodeView>, id: int, base: Seq<char>) -> Seq<char> {
    match element_attribute(nodes, id, "action"@) {
        Some(action) => match spec_url_join(base, action) {
            Ok(url) => url,
            Err(_) => base,
        },
        None => base,
    }
}

/// POST when the `method` attribute says so in any ASCII case, else GET.
pub open spec fn form_method(nodes: Seq<NodeView>, id: int) -> FormMethod {
    match element_attribute(nodes, id, "method"@) {
        Some(method) => if ascii_lower(method) == ascii_lower("post"@) {
            FormMethod::Post
        } else {
            FormMethod::Get
        },
        None => FormMethod::Get,
    }
}

pub open spec fn form_spec(nodes: Seq<NodeView>, id: int, base: Seq<char>) -> FormSpec {
    FormSpec {
        action: form_action(nodes, id, base),
        method: form_method(nodes, id),
        controls: controls_spec(nodes, subtree(nodes, id)),
    }
}

/// The forms among `ids`, in order.
pub open spec fn forms_spec(nodes: Seq<NodeView>, ids: Seq<int>, base: Seq<char>) -> Seq<FormSpec>
    decreases ids.len(),
{
    if ids.len() == 0 {
        Seq::empty()
    } else {
        let head = if is_element(nodes, ids[0], "form"@) {
            seq![form_spec(nodes, ids[0], base)]
        } else {
            Seq::empty()
        };
        head + forms_spec(nodes, ids.drop_first(), base)
    }
}

/// A form state as the browser reads it.
pub open spec fn form_state_spec(form: FormView) -> FormSpec {
    FormSpec {
        action: form.action,
        method: form.method,
        controls: form.controls.map_values(|c: FormControl| control_view(c)),
    }
}

/// `node` is node number `id` of `document`.
pub open spec fn node_of(document: &Document, node: &Node) -> bool {
    &&& node.id.0 < document@.len()
    &&& node_view(*node) == document@[node.id.0 as int]
}

/// The enabled options of the subtree rooted at `root`, and whether each is selected.
fn collect_options(document: &Document, root: &Node) -> (r: (Vec<SelectOption>, Vec<bool>))
    requires
        document.wf(),
        node_of(document, root),
    ensures
        r.0@.map_values(|o: SelectOption| option_view(o)) == option_list(
            document@,
            subtree(document@, root.id.0 as int),
        ),
        r.1@ == option_flags(document@, subtree(document@, root.id.0 as int)),
{
    let ghost nodes = document@;
    let ghost all = subtree(nodes, root.id.0 as int);
    let mut walk = document.descendants(root.id);
    let mut options: Vec<SelectOption> = Vec::new();
    let mut flags: Vec<bool> = Vec::new();
    proof {
        document.lemma_nodes_well_formed();
    }
    loop
        invariant
            document.wf(),
            nodes == document@,
            walk.wf(),
            walk.nodes() == nodes,
            option_list(nodes, all) == options@.map_values(|o: SelectOption| option_view(o))
                + option_list(nodes, walk.remaining()),
            option_flags(nodes, all) == flags@ + option_flags(nodes, walk.remaining()),
        ensures
            options@.map_values(|o: SelectOption| option_view(o)) == option_list(nodes, all),
            flags@ == option_flags(nodes, all),
        decreases walk.remaining().len(),
    {
        let ghost before = walk.remaining();
        let ghost old_options = options@;
        let ghost old_flags = flags@;
        match walk.next() {
            None => {
                proof {
                    assert(options@.map_values(|o: SelectOption| option_view(o)) + Seq::empty()
                        =~= options@.map_values(|o: SelectOption| option_view(o)));
                    assert(flags@ + Seq::empty() =~= flags@);
                }
                break;
            },
            Some(option) => {
                let ghost id = before[0];
                proof {
                    document.lemma_nodes_well_formed();
                    assert(option.id.0 == id);
                }
                match &option.kind {
                    NodeKind::Element(element) => {
                        if str_eq(element.name.as_str(), "option") && element.attribute(
                            "disabled",
                        ).is_none() {
                            let label = document.text_content(option.id);
                            let value = match element.attribute("value") {
                                Some(value) => String::from_str(value),
                                None => label.clone(),
                            };
                            let selected = element.attribute("selected").is_some();
                            let entry = SelectOption { value, label };
                            options.push(entry);
                            flags.push(selected);
                            proof {
                                assert(is_enabled_option(nodes, id));
                                assert(options@.map_values(|o: SelectOption| option_view(o))
                                    =~= old_options.map_values(|o: SelectOption| option_view(o))
                                    .push(option_view(entry)));
                            }
                        }
                    },
                    _ => {},
                }
                proof {
                    let head_options = if is_enabled_option(nodes, id) {
                        seq![
                            (
                                or_default(
                                    element_attribute(nodes, id, "value"@),
                                    texts(nodes, subtree(nodes, id)),
                                ),
                                texts(nodes, subtree(nodes, id)),
                            ),
                        ]
                    } else {
                        Seq::empty()
                    };
                    assert(option_list(nodes, before) == head_options + option_list(
                        nodes,
                        walk.remaining(),
                    ));
                    assert(options@.map_values(|o: SelectOption| option_view(o)) =~= old_options.map_values(
                        |o: SelectOption| option_view(o),
                    ) + head_options);
                    assert(flags@ =~= old_flags + if is_enabled_option(nodes, id) {
                        seq![element_attribute(nodes, id, "selected"@) is Some]
                    } else {
                        Seq::empty()
                    });
                }
            },
        }
    }
    (options, flags)
}

/// The position of the initially selected option.
fn selected_position(flags: &Vec<bool>) -> (r: Option<usize>)
    ensures
        r == selected_option(flags@),
{
    let mut i: usize = 0;
    while i < flags.len()
        invariant
            i <= flags.len(),
            first_true_from(flags@, 0) == first_true_from(flags@, i as int),
        decreases flags.len() - i,
    {
        if flags[i] {
            return Some(i);
        }
        i = i + 1;
    }
    if flags.len() > 0 {
        Some(0)
    } else {
        None
    }
}

/// The form control that `node` stands for, if it is an enabled `input`,
/// `select` or `button` element of a kind that forms submit.
pub fn extract_form_control(document: &Document, node: &Node) -> (r: Option<FormControl>)
    requires
        document.wf(),
        node_of(document, node),
    ensures
        match r {
            Some(control) => control_spec(document@, node.id.0 as int) == Some(control_view(control)),
            None => control_spec(document@, node.id.0 as int) is None,
        },
{
    let element = match &node.kind {
        NodeKind::Element(element) => element,
        _ => {
            return None;
        },
    };
    if element.attribute("disabled").is_some() {
        return None;
    }
    let name = match element.attribute("name") {
        Some(name) => Some(String::from_str(name)),
        None => None,
    };
    let tag = element.name.as_str();
    if str_eq(tag, "input") {
        let input_type = match element.attribute("type") {
            Some(t) => t,
            None => "text",
        };
        let lower = ascii_lowercase(input_type);
        let kind = if str_eq(lower.as_str(), "text") {
            ControlKind::Text
        } else if str_eq(lower.as_str(), "password") {
            ControlKind::Password
        } else if str_eq(lower.as_str(), "checkbox") {
            ControlKind::Checkbox
        } else if str_eq(lower.as_str(), "radio") {
            ControlKind::Radio
        } else if str_eq(lower.as_str(), "submit") {
            ControlKind::Submit
        } else if str_eq(lower.as_str(), "button") {
            ControlKind::Button
        } else {
            return None;
        };
        let default = if kind == ControlKind::Checkbox || kind == ControlKind::Radio {
            "on"
        } else if kind == ControlKind::Submit {
            "Submit"
        } else {
            ""
        };
        proof {
            reveal_strlit("");
        }
        let value = match element.attribute("value") {
            Some(value) => String::from_str(value),
            None => String::from_str(default),
        };
        let control = FormControl {
            id: ControlId(node.id.0),
            name,
            kind,
            value,
            checked: element.attribute("checked").is_some(),
            options: Vec::new(),
            selected_index: None,
        };
        proof {
            assert(control_view(control).options =~= Seq::<(Seq<char>, Seq<char>)>::empty());
            assert(control_spec(document@, node.id.0 as int) =~= Some(control_view(control)));
        }
        Some(control)
    } else if str_eq(tag, "select") {
        let (options, flags) = collect_options(document, node);
        let selected_index = selected_position(&flags);
        let control = FormControl {
            id: ControlId(node.id.0),
            name,
            kind: ControlKind::Select,
            value: String::new(),
            checked: false,
            options,
            selected_index,
        };
        proof {
            assert(control_spec(document@, node.id.0 as int) =~= Some(control_view(control)));
        }
        Some(control)
    } else if str_eq(tag, "button") {
        let button_type = match element.attribute("type") {
            Some(t) => t,
            None => "submit",
        };
        let kind = if eq_ignore_ascii_case(button_type, "submit") {
            ControlKind::Submit
        } else if eq_ignore_ascii_case(button_type, "button") {
            ControlKind::Button
        } else {
            return None;
        };
        let value = match element.attribute("value") {
            Some(value) => String::from_str(value),
            None => document.text_content(node.id),
        };
        let control = FormControl {
            id: ControlId(node.id.0),
            name,
            kind,
            value,
            checked: false,
            options: Vec::new(),
            selected_index: None,
        };
        proof {
            assert(control_view(control).options =~= Seq::<(Seq<char>, Seq<char>)>::empty());
            assert(control_spec(document@, node.id.0 as int) =~= Some(control_view(control)));
        }
        Some(control)
    } else {
        None
    }
}

/// The controls of the subtree rooted at `root`, in document order.
fn form_controls(document: &Document, root: &Node) -> (r: Vec<FormControl>)
    requires
        document.wf(),
        node_of(document, root),
    ensures
        r@.map_values(|c: FormControl| control_view(c)) == controls_spec(
            document@,
            subtree(document@, root.id.0 as int),
        ),
{
    let ghost nodes = document@;
    let ghost all = subtree(nodes, root.id.0 as int);
    let mut walk = document.descendants(root.id);
    let mut controls: Vec<FormControl> = Vec::new();
    loop
        invariant
            document.wf(),
            nodes == document@,
            walk.wf(),
            walk.nodes() == nodes,
            controls_spec(nodes, all) == controls@.map_values(|c: FormControl| control_view(c))
                + controls_spec(nodes, walk.remaining()),
        ensures
            controls@.map_values(|c: FormControl| control_view(c)) == controls_spec(nodes, all),
        decreases walk.remaining().len(),
    {
        let ghost before = walk.remaining();
        let ghost old_controls = controls@;
        match walk.next() {
            None => {
                proof {
                    assert(controls@.map_values(|c: FormControl| control_view(c)) + Seq::empty()
                        =~= controls@.map_values(|c: FormControl| control_view(c)));
                }
                break;
            },
            Some(node) => {
                let ghost id = before[0];
                proof {
                    document.lemma_nodes_well_formed();
                    assert(node.id.0 == id);
                }
                match extract_form_control(document, node) {
                    Some(control) => {
                        controls.push(control);
                        proof {
                            assert(controls@.map_values(|c: FormControl| control_view(c))
                                =~= old_controls.map_values(|c: FormControl| control_view(c))
                                + seq![control_view(control)]);
                        }
                    },
                    None => {
                        proof {
                            assert(controls@.map_values(|c: FormControl| control_view(c))
                                =~= old_controls.map_values(|c: FormControl| control_view(c))
                                + Seq::empty());
                        }
                    },
                }
            },
        }
    }
    controls
}

/// The forms of the document, in document order, with their actions resolved
/// against `base`.
pub fn extract_forms(document: &Document, base: &WebUrl) -> (r: Vec<FormState>)
    requires
        document.wf(),
    ensures
        r@.map_values(|f: FormState| form_state_spec(f@)) == forms_spec(
            document@,
            subtree(document@, 0),
            base@,
        ),
        forall|i: int| 0 <= i < r@.len() ==> !(#[trigger] r@[i])@.dirty,
{
    let ghost nodes = document@;
    let ghost all = subtree(nodes, 0);
    let mut walk = document.descendants(document.root());
    let mut forms: Vec<FormState> = Vec::new();
    loop
        invariant
            document.wf(),
            nodes == document@,
            all == subtree(nodes, 0),
            walk.wf(),
            walk.nodes() == nodes,
            forms_spec(nodes, all, base@) == forms@.map_values(|f: FormState| form_state_spec(f@))
                + forms_spec(nodes, walk.remaining(), base@),
            forall|i: int| 0 <= i < forms@.len() ==> !(#[trigger] forms@[i])@.dirty,
        ensures
            forms@.map_values(|f: FormState| form_state_spec(f@)) == forms_spec(nodes, all, base@),
            forall|i: int| 0 <= i < forms@.len() ==> !(#[trigger] forms@[i])@.dirty,
        decreases walk.remaining().len(),
    {
        let ghost before = walk.remaining();
        let ghost old_forms = forms@;
        match walk.next() {
            None => {
                proof {
                    assert(forms@.map_values(|f: FormState| form_state_spec(f@)) + Seq::empty()
                        =~= forms@.map_values(|f: FormState| form_state_spec(f@)));
                }
                break;
            },
            Some(node) => {
                let ghost id = before[0];
                proof {
                    document.lemma_nodes_well_formed();
                    assert(node.id.0 == id);
                }
                let mut added = false;
                match &node.kind {
                    NodeKind::Element(element) => {
                        if str_eq(element.name.as_str(), "form") {
                            let action = match element.attribute("action") {
                                Some(action) => match base.join(action) {
                                    Ok(url) => url,
                                    Err(_) => base.duplicate(),
                                },
                                None => base.duplicate(),
                            };
                            let method = match element.attribute("method") {
                                Some(method) => if eq_ignore_ascii_case(method, "post") {
                                    FormMethod::Post
                                } else {
                                    FormMethod::Get
                                },
                                None => FormMethod::Get,
                            };
                            let controls = form_controls(document, node);
                            let form = FormState::new(action, method, controls);
                            forms.push(form);
                            added = true;
                            proof {
                                assert(form_state_spec(form@) == form_spec(nodes, id, base@));
                                assert(forms@.map_values(|f: FormState| form_state_spec(f@))
                                    =~= old_forms.map_values(|f: FormState| form_state_spec(f@))
                                    + seq![form_spec(nodes, id, base@)]);
                            }
                        }
                    },
                    _ => {},
                }
                proof {
                    if !added {
                        assert(!is_element(nodes, id, "form"@));
                        assert(forms@.map_values(|f: FormState| form_state_spec(f@))
                            =~= old_forms.map_values(|f: FormState| form_state_spec(f@))
                            + Seq::empty());
                    }
                }
            },
        }
    }
    forms
}

/// The number of `script` elements among `ids`.
pub open spec fn script_count(nodes: Seq<NodeView>, ids: Seq<int>) -> nat
    decreases ids.len(),
{
    if ids.len() == 0 {
        0
    } else {
        (if is_element(nodes, ids[0], "script"@) {
            1nat
        } else {
            0nat
        }) + script_count(nodes, ids.drop_first())
    }
}

/// The number of attributes whose name begins with `on`.
pub open spec fn event_attribute_count(attributes: Seq<(Seq<char>, Seq<char>)>) -> nat
    decreases attributes.len(),
{
    if attributes.len() == 0 {
        0
    } else {
        (if starts_with(attributes[0].0, "on"@) {
            1nat
        } else {
            0nat
        }) + event_attribute_count(attributes.drop_first())
    }
}

/// The number of inline event attributes of the elements among `ids`.
pub open spec fn event_count(nodes: Seq<NodeView>, ids: Seq<int>) -> nat
    decreases ids.len(),
{
    if ids.len() == 0 {
        0
    } else {
        (match nodes[ids[0]].kind {
            KindView::Element { attributes, .. } => event_attribute_count(attributes),
            _ => 0,
        }) + event_count(nodes, ids.drop_first())
    }
}

pub open spec fn script_message(count: nat) -> Seq<char> {
    "ignored "@ + decimal(count) + " script element(s); JavaScript is disabled"@
}

pub open spec fn event_message(count: nat) -> Seq<char> {
    "ignored "@ + decimal(count) + " inline event attribute(s); JavaScript is disabled"@
}

/// The notes about the active content that the browser ignores.
pub open spec fn diagnostics_spec(nodes: Seq<NodeView>) -> Seq<Seq<char>> {
    let all = subtree(nodes, 0);
    let scripts = script_count(nodes, all);
    let events = event_count(nodes, all);
    (if scripts > 0 {
        seq![script_message(scripts)]
    } else {
        Seq::empty()
    }) + (if events > 0 {
        seq![event_message(events)]
    } else {
        Seq::empty()
    })
}

fn count_event_attributes(attributes: &Vec<(String, String)>) -> (r: usize)
    ensures
        r == event_attribute_count(crate::dom::attributes_view(attributes@)),
{
    let ghost all = crate::dom::attributes_view(attributes@);
    proof {
        assert(all.subrange(0, all.len() as int) =~= all);
    }
    let mut count: usize = 0;
    let mut i: usize = 0;
    while i < attributes.len()
        invariant
            i <= attributes.len(),
            all == crate::dom::attributes_view(attributes@),
            count <= i,
            event_attribute_count(all) == count + event_attribute_count(
                all.subrange(i as int, all.len() as int),
            ),
        decreases attributes.len() - i,
    {
        proof {
            let rest = all.subrange(i as int, all.len() as int);
            assert(rest.drop_first() =~= all.subrange(i + 1, all.len() as int));
            assert(rest[0] == all[i as int]);
        }
        if str_starts_with(attributes[i].0.as_str(), "on") {
            count = count + 1;
        }
        i = i + 1;
    }
    proof {
        assert(all.subrange(all.len() as int, all.len() as int) =~= Seq::<(Seq<char>, Seq<char>)>::empty());
    }
    count
}

fn message(prefix: &str, count: usize, suffix: &str) -> (r: String)
    ensures
        r@ == prefix@ + decimal(count as nat) + suffix@,
{
    let mut out = String::from_str(prefix);
    let digits = decimal_string(count);
    out.append(digits.as_str());
    out.append(suffix);
    out
}

/// Notes the scripts and inline event attributes that are ignored, because
/// JavaScript is disabled.
pub fn document_diagnostics(document: &Document) -> (r: Vec<String>)
    requires
        document.wf(),
        script_count(document@, subtree(document@, 0)) <= usize::MAX,
        event_count(document@, subtree(document@, 0)) <= usize::MAX,
    ensures
        r@.map_values(|s: String| s@) == diagnostics_spec(document@),
{
    let ghost nodes = document@;
    let ghost all = subtree(nodes, 0);
    let mut walk = document.descendants(document.root());
    let mut scripts: usize = 0;
    let mut events: usize = 0;
    loop
        invariant
            document.wf(),
            nodes == document@,
            all == subtree(nodes, 0),
            walk.wf(),
            walk.nodes() == nodes,
            script_count(nodes, all) <= usize::MAX,
            event_count(nodes, all) <= usize::MAX,
            script_count(nodes, all) == scripts + script_count(nodes, walk.remaining()),
            event_count(nodes, all) == events + event_count(nodes, walk.remaining()),
        ensures
            script_count(nodes, all) == scripts,
            event_count(nodes, all) == events,
        decreases walk.remaining().len(),
    {
        let ghost before = walk.remaining();
        match walk.next() {
            None => {
                break;
            },
            Some(node) => {
                match &node.kind {
                    NodeKind::Element(element) => {
                        if str_eq(element.name.as_str(), "script") {
                            scripts = scripts + 1;
                        }
                        let found = count_event_attributes(&element.attributes);
                        events = events + found;
                    },
                    _ => {},
                }
            },
        }
    }
    let mut diagnostics: Vec<String> = Vec::new();
    if scripts > 0 {
        diagnostics.push(message("ignored ", scripts, " script element(s); JavaScript is disabled"));
    }
    let ghost first = diagnostics@;
    if events > 0 {
        diagnostics.push(
            message("ignored ", events, " inline event attribute(s); JavaScript is disabled"),
        );
    }
    proof {
        assert(diagnostics@.map_values(|s: String| s@) =~= diagnostics_spec(nodes));
    }
    diagnostics
}

/// The first `a` element among `id` and its ancestors.
pub open spec fn anchor_at_or_above(nodes: Seq<NodeView>, id: int) -> Option<int>
    decreases id,
{
    if 0 <= id < nodes.len() {
        if is_element(nodes, id, "a"@) {
            Some(id)
        } else {
            match nodes[id].parent {
                Some(parent) => if parent.0 < id {
                    anchor_at_or_above(nodes, parent.0 as int)
                } else {
                    None
                },
                None => None,
            }
        }
    } else {
        None
    }
}

/// The nearest `a` element strictly above node `id`.
pub open spec fn nearest_anchor(nodes: Seq<NodeView>, id: int) -> Option<int> {
    if 0 <= id < nodes.len() {
        match nodes[id].parent {
            Some(parent) => anchor_at_or_above(nodes, parent.0 as int),
            None => None,
        }
    } else {
        None
    }
}

/// The target of the nearest enclosing link: its `href` resolved against `base`.
pub open spec fn link_spec(nodes: Seq<NodeView>, id: int, base: Seq<char>) -> Option<Seq<char>> {
    match nearest_anchor(nodes, id) {
        Some(anchor) => match element_attribute(nodes, anchor, "href"@) {
            Some(href) => match spec_url_join(base, href) {
                Ok(url) => Some(url),
                Err(_) => None,
            },
            None => None,
        },
        None => None,
    }
}

/// The target of the nearest link enclosing node `node_id`, resolved against `base`.
pub fn nearest_link(document: &Document, node_id: NodeId, base: &WebUrl) -> (r: Option<String>)
    requires
        document.wf(),
    ensures
        match r {
            Some(target) => link_spec(document@, node_id.0 as int, base@) == Some(target@),
            None => link_spec(document@, node_id.0 as int, base@) is None,
        },
{
    let ghost nodes = document@;
    proof {
        document.lemma_nodes_well_formed();
    }
    let start = match document.node(node_id) {
        Some(node) => node,
        None => {
            return None;
        },
    };
    let mut ancestor = start.parent;
    loop
        invariant
            document.wf(),
            nodes == document@,
            crate::dom::well_formed(nodes),
            match ancestor {
                Some(a) => a.0 < nodes.len() && nearest_anchor(nodes, node_id.0 as int)
                    == anchor_at_or_above(nodes, a.0 as int),
                None => nearest_anchor(nodes, node_id.0 as int) is None,
            },
        decreases match ancestor {
            Some(a) => a.0 + 1,
            None => 0,
        },
    {
        let id = match ancestor {
            Some(id) => id,
            None => {
                return None;
            },
        };
        let node = match document.node(id) {
            Some(node) => node,
            None => {
                return None;
            },
        };
        match &node.kind {
            NodeKind::Element(element) => {
                if str_eq(element.name.as_str(), "a") {
                    let href = match element.attribute("href") {
                        Some(href) => href,
                        None => {
                            return None;
                        },
                    };
                    return match base.join(href) {
                        Ok(url) => Some(url.to_string()),
                        Err(_) => None,
                    };
                }
            },
            _ => {},
        }
        proof {
            if id.0 > 0 {
                assert(nodes[id.0 as int].parent matches Some(p) && p.0 < id.0);
            }
        }
        ancestor = node.parent;
    }
}

/// The link target of each linked text node among `ids`, in order.
pub open spec fn link_pairs(nodes: Seq<NodeView>, ids: Seq<int>, base: Seq<char>) -> Seq<
    (int, Seq<char>),
>
    decreases ids.len(),
{
    if ids.len() == 0 {
        Seq::empty()
    } else {
        let id = ids[0];
        let head = if nodes[id].kind is Text {
            match link_spec(nodes, id, base) {
                Some(target) => seq![(id, target)],
                None => Seq::empty(),
            }
        } else {
            Seq::empty()
        };
        head + link_pairs(nodes, ids.drop_first(), base)
    }
}

/// Each text node that stands inside a link, with the link's target, in document order.
pub fn link_targets(document: &Document, base: &WebUrl) -> (r: Vec<(NodeId, String)>)
    requires
        document.wf(),
    ensures
        r@.map_values(|p: (NodeId, String)| (p.0.0 as int, p.1@)) == link_pairs(
            document@,
            subtree(document@, 0),
            base@,
        ),
{
    let ghost nodes = document@;
    let ghost all = subtree(nodes, 0);
    let mut walk = document.descendants(document.root());
    let mut out: Vec<(NodeId, String)> = Vec::new();
    loop
        invariant
            document.wf(),
            nodes == document@,
            all == subtree(nodes, 0),
            walk.wf(),
            walk.nodes() == nodes,
            link_pairs(nodes, all, base@) == out@.map_values(
                |p: (NodeId, String)| (p.0.0 as int, p.1@),
            ) + link_pairs(nodes, walk.remaining(), base@),
        ensures
            out@.map_values(|p: (NodeId, String)| (p.0.0 as int, p.1@)) == link_pairs(
                nodes,
                all,
                base@,
            ),
        decreases walk.remaining().len(),
    {
        let ghost before = walk.remaining();
        let ghost old_out = out@;
        match walk.next() {
            None => {
                proof {
                    assert(out@.map_values(|p: (NodeId, String)| (p.0.0 as int, p.1@))
                        + Seq::empty() =~= out@.map_values(
                        |p: (NodeId, String)| (p.0.0 as int, p.1@),
                    ));
                }
                break;
            },
            Some(node) => {
                let ghost id = before[0];
                proof {
                    document.lemma_nodes_well_formed();
                    assert(node.id.0 == id);
                }
                let mut pushed = false;
                match &node.kind {
                    NodeKind::Text(_) => {
                        match nearest_link(document, node.id, base) {
                            Some(target) => {
                                out.push((node.id, target));
                                pushed = true;
                                proof {
                                    assert(out@.map_values(
                                        |p: (NodeId, String)| (p.0.0 as int, p.1@),
                                    ) =~= old_out.map_values(
                                        |p: (NodeId, String)| (p.0.0 as int, p.1@),
                                    ) + seq![(id, target@)]);
                                }
                            },
                            None => {},
                        }
                    },
                    _ => {},
                }
                proof {
                    if !pushed {
                        assert(out@.map_values(|p: (NodeId, String)| (p.0.0 as int, p.1@))
                            =~= old_out.map_values(|p: (NodeId, String)| (p.0.0 as int, p.1@))
                            + Seq::empty());
                    }
                }
            },
        }
    }
    out
}

/// The stylesheet that node `id` links to: a `link` element whose `rel` has the
/// token `stylesheet` and whose `href` resolves against `base`.
pub open spec fn stylesheet_link(nodes: Seq<NodeView>, id: int, base: Seq<char>) -> Option<
    Seq<char>,
> {
    let is_stylesheet = match element_attribute(nodes, id, "rel"@) {
        Some(rel) => has_word(rel, "stylesheet"@),
        None => false,
    };
    if is_element(nodes, id, "link"@) && is_stylesheet {
        match element_attribute(nodes, id, "href"@) {
            Some(href) => match spec_url_join(base, href) {
                Ok(url) => Some(url),
                Err(_) => None,
            },
            None => None,
        }
    } else {
        None
    }
}

/// The stylesheets that the nodes `ids` link to, in order.
pub open spec fn stylesheet_list(nodes: Seq<NodeView>, ids: Seq<int>, base: Seq<char>) -> Seq<
    Seq<char>,
>
    decreases ids.len(),
{
    if ids.len() == 0 {
        Seq::empty()
    } else {
        let head = match stylesheet_link(nodes, ids[0], base) {
            Some(url) => seq![url],
            None => Seq::empty(),
        };
        head + stylesheet_list(nodes, ids.drop_first(), base)
    }
}

/// The URLs of the linked stylesheets, in document order.
pub fn stylesheet_urls(document: &Document, base: &WebUrl) -> (r: Vec<WebUrl>)
    requires
        document.wf(),
    ensures
        r@.map_values(|u: WebUrl| u@) == stylesheet_list(document@, subtree(document@, 0), base@),
{
    let ghost nodes = document@;
    let ghost all = subtree(nodes, 0);
    let mut walk = document.descendants(document.root());
    let mut out: Vec<WebUrl> = Vec::new();
    loop
        invariant
            document.wf(),
            nodes == document@,
            all == subtree(nodes, 0),
            walk.wf(),
            walk.nodes() == nodes,
            stylesheet_list(nodes, all, base@) == out@.map_values(|u: WebUrl| u@)
                + stylesheet_list(nodes, walk.remaining(), base@),
        ensures
            out@.map_values(|u: WebUrl| u@) == stylesheet_list(nodes, all, base@),
        decreases walk.remaining().len(),
    {
        let ghost before = walk.remaining();
        let ghost old_out = out@;
        match walk.next() {
            None => {
                proof {
                    assert(out@.map_values(|u: WebUrl| u@) + Seq::empty() =~= out@.map_values(
                        |u: WebUrl| u@,
                    ));
                }
                break;
            },
            Some(node) => {
                let ghost id = before[0];
                let mut pushed = false;
                match &node.kind {
                    NodeKind::Element(element) => {
                        let is_stylesheet = match element.attribute("rel") {
                            Some(rel) => contains_word(rel, "stylesheet"),
                            None => false,
                        };
                        if str_eq(element.name.as_str(), "link") && is_stylesheet {
                            match element.attribute("href") {
                                Some(href) => match base.join(href) {
                                    Ok(url) => {
                                        out.push(url);
                                        pushed = true;
                                        proof {
                                            assert(out@.map_values(|u: WebUrl| u@) =~= old_out.map_values(
                                                |u: WebUrl| u@,
                                            ) + seq![url@]);
                                        }
                                    },
                                    Err(_) => {},
                                },
                                None => {},
                            }
                        }
                    },
                    _ => {},
                }
                proof {
                    if !pushed {
                        assert(stylesheet_link(nodes, id, base@) is None);
                        assert(out@.map_values(|u: WebUrl| u@) =~= old_out.map_values(
                            |u: WebUrl| u@,
                        ) + Seq::empty());
                    }
                }
            },
        }
    }
    out
}

/// Whether a resource may be used by a document: both `file` URLs, or the same
/// HTTP(S) scheme, host and port; never for other document schemes.
pub open spec fn same_origin_spec(document: Seq<char>, resource: Seq<char>) -> bool {
    let scheme = spec_url_scheme(document);
    if scheme == "file"@ {
        spec_url_scheme(resource) == "file"@
    } else if scheme == "http"@ || scheme == "https"@ {
        &&& scheme == spec_url_scheme(resource)
        &&& spec_url_host(document) == spec_url_host(resource)
        &&& spec_url_port(document) == spec_url_port(resource)
    } else {
        false
    }
}

fn same_host(a: Option<&str>, b: Option<&str>) -> (r: bool)
    ensures
        r == (match a {
            Some(x) => Some(x@),
            None => None::<Seq<char>>,
        } == match b {
            Some(y) => Some(y@),
            None => None::<Seq<char>>,
        }),
{
    match (a, b) {
        (Some(x), Some(y)) => str_eq(x, y),
        (None, None) => true,
        _ => false,
    }
}

/// Whether `resource` has the same origin as `document`.
pub fn same_origin(document: &WebUrl, resource: &WebUrl) -> (r: bool)
    ensures
        r == same_origin_spec(document@, resource@),
{
    let scheme = document.scheme();
    if str_eq(scheme, "file") {
        str_eq(resource.scheme(), "file")
    } else if str_eq(scheme, "http") || str_eq(scheme, "https") {
        let host_a = document.host_str();
        let host_b = resource.host_str();
        proof {
            assert(spec_url_host(document@) == match host_a {
                Some(x) => Some(x@),
                None => None::<Seq<char>>,
            });
            assert(spec_url_host(resource@) == match host_b {
                Some(y) => Some(y@),
                None => None::<Seq<char>>,
            });
        }
        str_eq(scheme, resource.scheme()) && same_host(host_a, host_b)
            && document.port_or_known_default() == resource.port_or_known_default()
    } else {
        false
    }
}

/// The text of the `style` elements among `ids`, each followed by a line break.
pub open spec fn style_text(nodes: Seq<NodeView>, ids: Seq<int>) -> Seq<char>
    decreases ids.len(),
{
    if ids.len() == 0 {
        Seq::empty()
    } else {
        let head = if is_element(nodes, ids[0], "style"@) {
            texts(nodes, subtree(nodes, ids[0])).push('\n')
        } else {
            Seq::empty()
        };
        head + style_text(nodes, ids.drop_first())
    }
}

/// The CSS of the document's `style` elements, in document order.
pub fn inline_css(document: &Document) -> (r: String)
    requires
        document.wf(),
    ensures
        r@ == style_text(document@, subtree(document@, 0)),
{
    let ghost nodes = document@;
    let ghost all = subtree(nodes, 0);
    let mut walk = document.descendants(document.root());
    let mut out = String::new();
    loop
        invariant
            document.wf(),
            nodes == document@,
            all == subtree(nodes, 0),
            walk.wf(),
            walk.nodes() == nodes,
            style_text(nodes, all) == out@ + style_text(nodes, walk.remaining()),
        ensures
            out@ == style_text(nodes, all),
        decreases walk.remaining().len(),
    {
        let ghost before = walk.remaining();
        let ghost old_out = out@;
        match walk.next() {
            None => {
                proof {
                    assert(out@ + Seq::empty() =~= out@);
                }
                break;
            },
            Some(node) => {
                let ghost id = before[0];
                proof {
                    document.lemma_nodes_well_formed();
                    assert(node.id.0 == id);
                }
                let mut added = false;
                match &node.kind {
                    NodeKind::Element(element) => {
                        if str_eq(element.name.as_str(), "style") {
                            let text = document.text_content(node.id);
                            out.append(text.as_str());
                            push_char(&mut out, '\n');
                            added = true;
                            proof {
                                assert(out@ =~= old_out + texts(nodes, subtree(nodes, id)).push('\n'));
                            }
                        }
                    },
                    _ => {},
                }
                proof {
                    if !added {
                        assert(out@ =~= old_out + Seq::empty());
                    }
                }
            },
        }
    }
    out
}

/// The option a select starts with: none without options; otherwise the first
/// option marked `selected`, and the first option when none is marked.
pub proof fn law_initial_selection(flags: Seq<bool>)
    ensures
        flags.len() == 0 ==> selected_option(flags) is None,
        flags.len() > 0 ==> (selected_option(flags) matches Some(k) && (k as int) < flags.len()),
        flags.len() > 0 && (forall|i: int| 0 <= i < flags.len() ==> !flags[i]) ==> selected_option(flags) == Some(0usize),
        forall|k: int| 0 <= k < flags.len() && flags[k] && (forall|j: int| 0 <= j < k ==> !flags[j]) ==> selected_option(
            flags,
        ) == Some(k as usize),
{
    lemma_first_true_from(flags, 0);
}

proof fn lemma_first_true_from(flags: Seq<bool>, k: int)
    requires
        0 <= k <= flags.len(),
    ensures
        match first_true_from(flags, k) {
            Some(i) => k <= i < flags.len() && flags[i] && forall|j: int| k <= j < i ==> !flags[j],
            None => forall|j: int| k <= j < flags.len() ==> !flags[j],
        },
    decreases flags.len() - k,
{
    if k < flags.len() && !flags[k] {
        lemma_first_true_from(flags, k + 1);
    }
}

proof fn lemma_control_type_names()
    ensures
        "text"@.len() == 4,
        "password"@.len() == 8 && "password"@[0] == 'p',
        "checkbox"@.len() == 8 && "checkbox"@[0] == 'c',
        "radio"@.len() == 5,
        "submit"@.len() == 6 && "submit"@[0] == 's',
        "button"@.len() == 6 && "button"@[0] == 'b',
{
    reveal_strlit("text");
    reveal_strlit("password");
    reveal_strlit("checkbox");
    reveal_strlit("radio");
    reveal_strlit("submit");
    reveal_strlit("button");
}

/// Each input type gives its own control kind, read in ASCII lower case:
/// `text`, `password`, `checkbox`, `radio`, `submit` and `button` each give
/// theirs, and any other type makes no control.
pub proof fn law_input_types(input_type: Seq<char>)
    ensures
        input_kind(input_type) == Some(ControlKind::Text) <==> ascii_lower(input_type) == "text"@,
        input_kind(input_type) == Some(ControlKind::Password) <==> ascii_lower(input_type) == "password"@,
        input_kind(input_type) == Some(ControlKind::Checkbox) <==> ascii_lower(input_type) == "checkbox"@,
        input_kind(input_type) == Some(ControlKind::Radio) <==> ascii_lower(input_type) == "radio"@,
        input_kind(input_type) == Some(ControlKind::Submit) <==> ascii_lower(input_type) == "submit"@,
        input_kind(input_type) == Some(ControlKind::Button) <==> ascii_lower(input_type) == "button"@,
        input_kind(input_type) is None <==> !(ascii_lower(input_type) == "text"@ || ascii_lower(input_type)
            == "password"@ || ascii_lower(input_type) == "checkbox"@ || ascii_lower(input_type) == "radio"@
            || ascii_lower(input_type) == "submit"@ || ascii_lower(input_type) == "button"@),
{
    lemma_control_type_names();
}

/// A `button` element submits unless its type is `button`, read ignoring ASCII
/// case; any other type makes no control. An input without a `value` has `on`
/// as a checkbox or radio button, `Submit` as a submit button, and is empty
/// otherwise.
pub proof fn law_button_types_and_default_values(button_type: Seq<char>, kind: ControlKind)
    ensures
        button_kind(button_type) == Some(ControlKind::Submit) <==> ascii_lower(button_type) == "submit"@,
        button_kind(button_type) == Some(ControlKind::Button) <==> ascii_lower(button_type) == "button"@,
        button_kind(button_type) is None <==> !(ascii_lower(button_type) == "submit"@ || ascii_lower(button_type)
            == "button"@),
        (kind == ControlKind::Checkbox || kind == ControlKind::Radio) ==> default_input_value(kind) == "on"@,
        kind == ControlKind::Submit ==> default_input_value(kind) == "Submit"@,
        !(kind == ControlKind::Checkbox || kind == ControlKind::Radio || kind == ControlKind::Submit)
            ==> default_input_value(kind).len() == 0,
{
    lemma_control_type_names();
    reveal_strlit("on");
    reveal_strlit("Submit");
    lemma_lower_case_word("submit"@);
    lemma_lower_case_word("button"@);
}

proof fn lemma_lower_case_word(word: Seq<char>)
    requires
        word == "submit"@ || word == "button"@ || word == "post"@,
    ensures
        ascii_lower(word) == word,
{
    reveal_strlit("submit");
    reveal_strlit("button");
    reveal_strlit("post");
    assert forall|i: int| 0 <= i < word.len() implies !('A' <= #[trigger] word[i] && word[i] <= 'Z') by {
        assert(i == 0 || i == 1 || i == 2 || i == 3 || i == 4 || i == 5);
    }
    assert(ascii_lower(word) =~= word);
}

/// A form posts exactly when its `method` attribute is `post` in some ASCII
/// case; without the attribute, or with any other method, it gets.
pub proof fn law_form_methods(nodes: Seq<NodeView>, id: int)
    ensures
        element_attribute(nodes, id, "method"@) is None ==> form_method(nodes, id) == FormMethod::Get,
        element_attribute(nodes, id, "method"@) matches Some(method) ==> (form_method(nodes, id) == FormMethod::Post
            <==> ascii_lower(method) == "post"@),
{
    lemma_lower_case_word("post"@);
}

/// Sharing an origin is symmetric; a `file`, `http` or `https` URL shares an
/// origin with itself; URLs of different schemes never share one, and nor do
/// URLs of any other scheme.
pub proof fn law_same_origin_relation(a: Seq<char>, b: Seq<char>)
    ensures
        same_origin_spec(a, b) == same_origin_spec(b, a),
        (spec_url_scheme(a) == "file"@ || spec_url_scheme(a) == "http"@ || spec_url_scheme(a) == "https"@)
            ==> same_origin_spec(a, a),
        spec_url_scheme(a) != spec_url_scheme(b) ==> !same_origin_spec(a, b),
        !(spec_url_scheme(a) == "file"@ || spec_url_scheme(a) == "http"@ || spec_url_scheme(a) == "https"@)
            ==> !same_origin_spec(a, b),
{
    reveal_strlit("file");
    reveal_strlit("http");
    reveal_strlit("https");
    assert("file"@[0] != "http"@[0]);
}

/// The options a select lists: an enabled option gives its `value`, or its
/// text when it has no `value`, with its text as the label; a disabled option
/// or any other node gives nothing; and the options of consecutive nodes are
/// listed in order.
pub proof fn law_select_options(nodes: Seq<NodeView>, id: int, ids: Seq<int>, more: Seq<int>)
    ensures
        is_enabled_option(nodes, id) && element_attribute(nodes, id, "value"@) is None ==> option_list(
            nodes,
            seq![id],
        ) == seq![(texts(nodes, subtree(nodes, id)), texts(nodes, subtree(nodes, id)))],
        is_enabled_option(nodes, id) && element_attribute(nodes, id, "value"@) is Some ==> option_list(
            nodes,
            seq![id],
        ) == seq![(element_attribute(nodes, id, "value"@)->Some_0, texts(nodes, subtree(nodes, id)))],
        !is_enabled_option(nodes, id) ==> option_list(nodes, seq![id]).len() == 0,
        option_list(nodes, ids + more) == option_list(nodes, ids) + option_list(nodes, more),
    decreases ids.len(),
{
    let single = seq![id];
    assert(single.drop_first() =~= Seq::<int>::empty());
    assert(option_list(nodes, Seq::<int>::empty()) =~= Seq::<(Seq<char>, Seq<char>)>::empty());
    if ids.len() > 0 {
        assert((ids + more).drop_first() =~= ids.drop_first() + more);
        assert((ids + more)[0] == ids[0]);
        law_select_options(nodes, id, ids.drop_first(), more);
        let head = if is_enabled_option(nodes, ids[0]) {
            seq![(or_default(element_attribute(nodes, ids[0], "value"@), texts(nodes, subtree(nodes, ids[0]))), texts(nodes, subtree(nodes, ids[0])))]
        } else {
            Seq::empty()
        };
        assert(head + (option_list(nodes, ids.drop_first()) + option_list(nodes, more)) =~= (head + option_list(
            nodes,
            ids.drop_first(),
        )) + option_list(nodes, more));
    } else {
        assert(ids + more =~= more);
    }
    let label = texts(nodes, subtree(nodes, id));
    if is_enabled_option(nodes, id) {
        let head = seq![(or_default(element_attribute(nodes, id, "value"@), label), label)];
        assert(head + Seq::<(Seq<char>, Seq<char>)>::empty() =~= head);
    } else {
        assert(Seq::<(Seq<char>, Seq<char>)>::empty() + Seq::<(Seq<char>, Seq<char>)>::empty() =~= Seq::<(Seq<char>, Seq<char>)>::empty());
    }
}

} // verus!
