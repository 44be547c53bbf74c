//! Form controls, their user-edited state and the
//! `application/x-www-form-urlencoded` submission that they produce.

use vstd::prelude::*;

use crate::paint::hex_value;
use crate::url::{spec_url_with_query, WebUrl};

verus! {

#[derive(Clone, Copy, Debug, PartialEq, Eq, Hash, Structural)]
pub struct ControlId(pub u32);

#[derive(Clone, Copy, Debug, PartialEq, Eq, Structural)]
pub enum FormMethod {
    Get,
    Post,
}

#[derive(Clone, Copy, Debug, PartialEq, Eq, Structural)]
pub enum ControlKind {
    Text,
    Password,
    Checkbox,
    Radio,
    Select,
    Submit,
    Button,
}

#[derive(Clone, Debug)]
pub struct SelectOption {
    pub value: String,
    pub label: String,
}

#[derive(Clone, Debug)]
pub struct FormControl {
    pub id: ControlId,
    pub name: Option<String>,
    pub kind: ControlKind,
    pub value: String,
    pub checked: bool,
    pub options: Vec<SelectOption>,
    pub selected_index: Option<usize>,
}

#[derive(Clone, Debug)]
pub struct FormSubmission {
    pub method: FormMethod,
    pub target: WebUrl,
    pub encoded: String,
}

#[derive(Clone, Copy, Debug, PartialEq, Eq, Structural)]
pub enum FormError {
    MissingControl,
    NotTextControl,
    NotSelectable,
    MissingOption,
    InvalidSubmitter,
}

/// The state of one form: where it submits, how, and its controls.
#[derive(Clone, Debug)]
pub struct FormState {
    pub action: WebUrl,
    pub method: FormMethod,
    pub controls: Vec<FormControl>,
    dirty: bool,
}

/// A form control as mathematical values; each option is its value and label.
#[verifier::ext_equal]
pub struct ControlView {
    pub id: ControlId,
    pub name: Option<Seq<char>>,
    pub kind: ControlKind,
    pub value: Seq<char>,
    pub checked: bool,
    pub options: Seq<(Seq<char>, Seq<char>)>,
    pub selected_index: Option<usize>,
}

pub open spec fn option_view(option: SelectOption) -> (Seq<char>, Seq<char>) {
    (option.value@, option.label@)
}

pub open spec fn control_view(control: FormControl) -> ControlView {
    ControlView {
        id: control.id,
        name: name_of(control),
        kind: control.kind,
        value: control.value@,
        checked: control.checked,
        options: control.options@.map_values(|o: SelectOption| option_view(o)),
        selected_index: control.selected_index,
    }
}

/// What a form state holds, as mathematical values.
pub ghost struct FormView {
    pub action: Seq<char>,
    pub method: FormMethod,
    pub controls: Seq<FormControl>,
    pub dirty: bool,
}

impl View for FormState {
    type V = FormView;

    closed spec fn view(&self) -> FormView {
        FormView {
            action: self.action@,
            method: self.method,
            controls: self.controls@,
            dirty: self.dirty,
        }
    }
}

/// Control `i` is the first control with id `id`.
pub open spec fn first_with_id(controls: Seq<FormControl>, id: ControlId, i: int) -> bool {
    &&& 0 <= i < controls.len()
    &&& controls[i].id == id
    &&& forall|j: int| 0 <= j < i ==> controls[j].id != id
}

pub open spec fn has_id(controls: Seq<FormControl>, id: ControlId) -> bool {
    exists|i: int| 0 <= i < controls.len() && controls[i].id == id
}

pub open spec fn name_of(control: FormControl) -> Option<Seq<char>> {
    match control.name {
        Some(name) => Some(name@),
        None => None,
    }
}

/// The controls are unchanged but for control `i`.
pub open spec fn only_changed(before: Seq<FormControl>, after: Seq<FormControl>, i: int) -> bool {
    &&& after.len() == before.len()
    &&& forall|j: int| 0 <= j < before.len() && j != i ==> after[j] == before[j]
}

/// The value that a control contributes to a submission, if it is successful.
pub open spec fn successful_value(control: FormControl, submitter: Option<ControlId>) -> Option<
    Seq<char>,
> {
    match control.kind {
        ControlKind::Text | ControlKind::Password => Some(control.value@),
        ControlKind::Checkbox | ControlKind::Radio => if control.checked {
            Some(control.value@)
        } else {
            None
        },
        ControlKind::Select => match control.selected_index {
            Some(index) => if index < control.options.len() {
                Some(control.options[index as int].value@)
            } else {
                None
            },
            None => None,
        },
        ControlKind::Submit => if submitter == Some(control.id) {
            Some(control.value@)
        } else {
            None
        },
        ControlKind::Button => None,
    }
}

/// The name-value pairs that the controls submit, in document order.
pub open spec fn form_pairs(controls: Seq<FormControl>, submitter: Option<ControlId>) -> Seq<
    (Seq<char>, Seq<char>),
>
    decreases controls.len(),
{
    if controls.len() == 0 {
        Seq::empty()
    } else {
        let previous = form_pairs(controls.drop_last(), submitter);
        let control = controls.last();
        match (name_of(control), successful_value(control, submitter)) {
            (Some(name), Some(value)) => previous.push((name, value)),
            _ => previous,
        }
    }
}

/// Bytes that the form serializer copies unchanged.
pub open spec fn unchanged_byte(b: u8) -> bool {
    b == 42 || b == 45 || b == 46 || (48 <= b <= 57) || (65 <= b <= 90) || b == 95 || (97 <= b
        <= 122)
}

pub open spec fn upper_hex_digit(d: int) -> char {
    if d < 10 {
        ((d + 48) as u8) as char
    } else {
        ((d + 55) as u8) as char
    }
}

/// The form serializer's text for one byte.
pub open spec fn encode_byte(b: u8) -> Seq<char> {
    if unchanged_byte(b) {
        seq![b as char]
    } else if b == 32 {
        seq!['+']
    } else {
        seq!['%', upper_hex_digit(b as int / 16), upper_hex_digit(b as int % 16)]
    }
}

/// The `application/x-www-form-urlencoded` byte serialization of `bytes`.
pub open spec fn byte_serialize(bytes: Seq<u8>) -> Seq<char>
    decreases bytes.len(),
{
    if bytes.len() == 0 {
        Seq::empty()
    } else {
        byte_serialize(bytes.drop_last()) + encode_byte(bytes.last())
    }
}

/// The serialization of a text: the byte serialization of its UTF-8 encoding.
pub open spec fn urlencode(s: Seq<char>) -> Seq<char> {
    byte_serialize(vstd::utf8::encode_utf8(s))
}

/// The pairs, serialized as `name=value` and joined by `&`.
pub open spec fn urlencoded_pairs(pairs: Seq<(Seq<char>, Seq<char>)>) -> Seq<char>
    decreases pairs.len(),
{
    if pairs.len() == 0 {
        Seq::empty()
    } else {
        let previous = urlencoded_pairs(pairs.drop_last());
        let separated = if pairs.len() == 1 {
            previous
        } else {
            previous.push('&')
        };
        separated + urlencode(pairs.last().0).push('=') + urlencode(pairs.last().1)
    }
}

fn hex_digit_char(d: u8) -> (r: char)
    requires
        d < 16,
    ensures
        r == upper_hex_digit(d as int),
{
    if d < 10 {
        (d + 48) as char
    } else {
        (d + 55) as char
    }
}

/// Appends the form serialization of `text` to `out`.
fn append_encoded(out: &mut String, text: &str)
    ensures
        final(out)@ == old(out)@ + urlencode(text@),
{
    let bytes = text.as_bytes();
    let ghost all = bytes@;
    let mut i: usize = 0;
    while i < bytes.len()
        invariant
            i <= bytes.len(),
            bytes@ == all,
            all == vstd::utf8::encode_utf8(text@),
            out@ == old(out)@ + byte_serialize(all.subrange(0, i as int)),
        decreases bytes.len() - i,
    {
        let b = bytes[i];
        let ghost before = out@;
        if b == 42 || b == 45 || b == 46 || (48 <= b && b <= 57) || (65 <= b && b <= 90) || b == 95
            || (97 <= b && b <= 122) {
            crate::text::push_char(out, b as char);
        } else if b == 32 {
            crate::text::push_char(out, '+');
        } else {
            crate::text::push_char(out, '%');
            crate::text::push_char(out, hex_digit_char(b / 16));
            crate::text::push_char(out, hex_digit_char(b % 16));
        }
        proof {
            assert(all.subrange(0, i + 1).drop_last() =~= all.subrange(0, i as int));
            assert(out@ =~= before + encode_byte(b));
        }
        i = i + 1;
    }
    proof {
        assert(all.subrange(0, all.len() as int) =~= all);
    }
}

impl FormState {
    pub fn new(action: WebUrl, method: FormMethod, controls: Vec<FormControl>) -> (r: FormState)
        ensures
            r@.action == action@,
            r@.method == method,
            r@.controls == controls@,
            !r@.dirty,
    {
        FormState { action, method, controls, dirty: false }
    }

    pub fn is_dirty(&self) -> (r: bool)
        ensures
            r == self@.dirty,
    {
        self.dirty
    }

    fn control_index(&self, id: ControlId) -> (r: Option<usize>)
        ensures
            match r {
                Some(i) => first_with_id(self@.controls, id, i as int),
                None => !has_id(self@.controls, id),
            },
    {
        let mut i: usize = 0;
        while i < self.controls.len()
            invariant
                i <= self.controls.len(),
                forall|j: int| 0 <= j < i ==> self@.controls[j].id != id,
            decreases self.controls.len() - i,
        {
            if self.controls[i].id == id {
                return Some(i);
            }
            i = i + 1;
        }
        None
    }

    /// Changes the value of the first text or password control with id `id`.
    pub fn set_text(&mut self, id: ControlId, value: String) -> (r: Result<(), FormError>)
        ensures
            final(self)@.action == old(self)@.action,
            final(self)@.method == old(self)@.method,
            !has_id(old(self)@.controls, id) ==> r == Err::<(), FormError>(FormError::MissingControl)
                && final(self)@.controls == old(self)@.controls && final(self)@.dirty
                == old(self)@.dirty,
            forall|i: int| #[trigger] first_with_id(old(self)@.controls, id, i) ==> {
                let control = old(self)@.controls[i];
                if control.kind == ControlKind::Text || control.kind == ControlKind::Password {
                    &&& r == Ok::<(), FormError>(())
                    &&& only_changed(old(self)@.controls, final(self)@.controls, i)
                    &&& final(self)@.controls[i] == (FormControl { value, ..control })
                    &&& final(self)@.dirty
                } else {
                    &&& r == Err::<(), FormError>(FormError::NotTextControl)
                    &&& final(self)@.controls == old(self)@.controls
                    &&& final(self)@.dirty == old(self)@.dirty
                }
            },
    {
        let index = match self.control_index(id) {
            Some(index) => index,
            None => return Err(FormError::MissingControl),
        };
        let kind = self.controls[index].kind;
        if !(kind == ControlKind::Text || kind == ControlKind::Password) {
            return Err(FormError::NotTextControl);
        }
        let mut control = self.controls.remove(index);
        control.value = value;
        self.controls.insert(index, control);
        proof {
            assert(self@.controls =~= old(self)@.controls.update(index as int, control));
        }
        self.dirty = true;
        Ok(())
    }

    /// Checks or unchecks the first checkbox or radio control with id `id`; checking
    /// a named radio control unchecks the other radio controls of that name.
    pub fn set_checked(&mut self, id: ControlId, checked: bool) -> (r: Result<(), FormError>)
        ensures
            final(self)@.action == old(self)@.action,
            final(self)@.method == old(self)@.method,
            !has_id(old(self)@.controls, id) ==> r == Err::<(), FormError>(FormError::MissingControl)
                && final(self)@.controls == old(self)@.controls && final(self)@.dirty
                == old(self)@.dirty,
            forall|i: int| #[trigger] first_with_id(old(self)@.controls, id, i) ==> {
                let control = old(self)@.controls[i];
                if control.kind == ControlKind::Checkbox || control.kind == ControlKind::Radio {
                    &&& r == Ok::<(), FormError>(())
                    &&& final(self)@.dirty
                    &&& final(self)@.controls.len() == old(self)@.controls.len()
                    &&& final(self)@.controls[i] == (FormControl { checked, ..control })
                    &&& forall|j: int|
                        0 <= j < old(self)@.controls.len() && j != i ==> {
                            let other = old(self)@.controls[j];
                            #[trigger] final(self)@.controls[j] == if checked && control.kind
                                == ControlKind::Radio && control.name is Some && other.id != id
                                && other.kind == ControlKind::Radio && name_of(other) == name_of(
                                control,
                            ) {
                                FormControl { checked: false, ..other }
                            } else {
                                other
                            }
                        }
                } else {
                    &&& r == Err::<(), FormError>(FormError::NotSelectable)
                    &&& final(self)@.controls == old(self)@.controls
                    &&& final(self)@.dirty == old(self)@.dirty
                }
            },
    {
        let index = match self.control_index(id) {
            Some(index) => index,
            None => return Err(FormError::MissingControl),
        };
        let kind = self.controls[index].kind;
        if !(kind == ControlKind::Checkbox || kind == ControlKind::Radio) {
            return Err(FormError::NotSelectable);
        }
        let mut control = self.controls.remove(index);
        control.checked = checked;
        let name = match &control.name {
            Some(name) => Some(name.clone()),
            None => None,
        };
        self.controls.insert(index, control);
        proof {
            assert(self@.controls =~= old(self)@.controls.update(index as int, control));
        }
        let ghost updated = self@.controls;
        if checked && kind == ControlKind::Radio {
            if let Some(name) = name {
                let mut j: usize = 0;
                while j < self.controls.len()
                    invariant
                        j <= self.controls.len(),
                        self.action@ == old(self).action@,
                        self.method == old(self).method,
                        self.dirty == old(self).dirty,
                        self@.controls.len() == updated.len(),
                        updated.len() == old(self)@.controls.len(),
                        0 <= index < updated.len(),
                        updated[index as int].id == id,
                        updated[index as int].kind == ControlKind::Radio,
                        forall|k: int| 0 <= k < j ==> #[trigger] self@.controls[k] == if updated[k].id != id
                            && updated[k].kind == ControlKind::Radio && name_of(updated[k]) == Some(
                            name@,
                        ) {
                            FormControl { checked: false, ..updated[k] }
                        } else {
                            updated[k]
                        },
                        forall|k: int| j <= k < updated.len() ==> #[trigger] self@.controls[k] == updated[k],
                    decreases self.controls.len() - j,
                {
                    let matches = self.controls[j].id != id && self.controls[j].kind
                        == ControlKind::Radio && match &self.controls[j].name {
                        Some(other) => *other == name,
                        None => false,
                    };
                    if matches {
                        let ghost before = self@.controls;
                        let mut other = self.controls.remove(j);
                        other.checked = false;
                        self.controls.insert(j, other);
                        proof {
                            assert(self@.controls =~= before.update(j as int, other));
                        }
                    }
                    j = j + 1;
                }
            }
        }
        self.dirty = true;
        Ok(())
    }

    /// Selects option `index` of the first select control with id `id`.
    pub fn select(&mut self, id: ControlId, index: usize) -> (r: Result<(), FormError>)
        ensures
            final(self)@.action == old(self)@.action,
            final(self)@.method == old(self)@.method,
            !has_id(old(self)@.controls, id) ==> r == Err::<(), FormError>(FormError::MissingControl)
                && final(self)@.controls == old(self)@.controls && final(self)@.dirty
                == old(self)@.dirty,
            forall|i: int| #[trigger] first_with_id(old(self)@.controls, id, i) ==> {
                let control = old(self)@.controls[i];
                if control.kind != ControlKind::Select {
                    &&& r == Err::<(), FormError>(FormError::NotSelectable)
                    &&& final(self)@.controls == old(self)@.controls
                    &&& final(self)@.dirty == old(self)@.dirty
                } else if index >= control.options.len() {
                    &&& r == Err::<(), FormError>(FormError::MissingOption)
                    &&& final(self)@.controls == old(self)@.controls
                    &&& final(self)@.dirty == old(self)@.dirty
                } else {
                    &&& r == Ok::<(), FormError>(())
                    &&& only_changed(old(self)@.controls, final(self)@.controls, i)
                    &&& final(self)@.controls[i] == (FormControl {
                        selected_index: Some(index),
                        ..control
                    })
                    &&& final(self)@.dirty
                }
            },
    {
        let position = match self.control_index(id) {
            Some(position) => position,
            None => return Err(FormError::MissingControl),
        };
        if self.controls[position].kind != ControlKind::Select {
            return Err(FormError::NotSelectable);
        }
        if index >= self.controls[position].options.len() {
            return Err(FormError::MissingOption);
        }
        let mut control = self.controls.remove(position);
        control.selected_index = Some(index);
        self.controls.insert(position, control);
        proof {
            assert(self@.controls =~= old(self)@.controls.update(position as int, control));
        }
        self.dirty = true;
        Ok(())
    }

    /// Builds the submission: the successful controls' pairs, serialized; a GET form
    /// puts them in the target's query (none when empty), a POST form leaves the
    /// target as its action.
    pub fn submission(&self, submitter: Option<ControlId>) -> (r: Result<FormSubmission, FormError>)
        ensures
            match submitter {
                Some(s) if !(exists|i: int|
                    0 <= i < self@.controls.len() && self@.controls[i].id == s
                        && self@.controls[i].kind == ControlKind::Submit) => r == Err::<
                    FormSubmission,
                    FormError,
                >(FormError::InvalidSubmitter),
                _ => r matches Ok(submission) && {
                    let encoded = urlencoded_pairs(form_pairs(self@.controls, submitter));
                    &&& submission.method == self@.method
                    &&& submission.encoded@ == encoded
                    &&& submission.target@ == if self@.method == FormMethod::Get {
                        spec_url_with_query(
                            self@.action,
                            if encoded.len() == 0 {
                                None
                            } else {
                                Some(encoded)
                            },
                        )
                    } else {
                        self@.action
                    }
                },
            },
    {
        if let Some(submitter_id) = submitter {
            let mut found = false;
            let mut k: usize = 0;
            while k < self.controls.len()
                invariant
                    k <= self.controls.len(),
                    found == exists|i: int|
                        0 <= i < k && self@.controls[i].id == submitter_id
                            && self@.controls[i].kind == ControlKind::Submit,
                decreases self.controls.len() - k,
            {
                if self.controls[k].id == submitter_id && self.controls[k].kind == ControlKind::Submit {
                    found = true;
                }
                k = k + 1;
            }
            if !found {
                return Err(FormError::InvalidSubmitter);
            }
        }
        let mut encoded = String::new();
        let mut count: usize = 0;
        let mut i: usize = 0;
        while i < self.controls.len()
            invariant
                i <= self.controls.len(),
                count == form_pairs(self@.controls.subrange(0, i as int), submitter).len(),
                encoded@ == urlencoded_pairs(form_pairs(self@.controls.subrange(0, i as int), submitter)),
            decreases self.controls.len() - i,
        {
            let control = &self.controls[i];
            proof {
                assert(self@.controls.subrange(0, i + 1).drop_last() =~= self@.controls.subrange(0, i as int));
            }
            let value: Option<&str> = match control.kind {
                ControlKind::Text | ControlKind::Password => Some(control.value.as_str()),
                ControlKind::Checkbox | ControlKind::Radio => if control.checked {
                    Some(control.value.as_str())
                } else {
                    None
                },
                ControlKind::Select => match control.selected_index {
                    Some(index) => if index < control.options.len() {
                        Some(control.options[index].value.as_str())
                    } else {
                        None
                    },
                    None => None,
                },
                ControlKind::Submit => if submitter == Some(control.id) {
                    Some(control.value.as_str())
                } else {
                    None
                },
                ControlKind::Button => None,
            };
            proof {
                assert(self@.controls.subrange(0, i + 1).last() == self@.controls[i as int]);
                assert(match value {
                    Some(v) => successful_value(*control, submitter) == Some(v@),
                    None => successful_value(*control, submitter) is None,
                });
            }
            let ghost previous = form_pairs(self@.controls.subrange(0, i as int), submitter);
            match (&control.name, value) {
                (Some(name), Some(value)) => {
                    if count > 0 {
                        crate::text::push_char(&mut encoded, '&');
                    }
                    append_encoded(&mut encoded, name.as_str());
                    crate::text::push_char(&mut encoded, '=');
                    append_encoded(&mut encoded, value);
                    proof {
                        assert(count < usize::MAX) by {
                            lemma_form_pairs_len(self@.controls.subrange(0, i as int), submitter);
                        }
                    }
                    count = count + 1;
                    proof {
                        let pair = (name@, value@);
                        assert(form_pairs(self@.controls.subrange(0, i + 1), submitter) == previous.push(pair));
                        assert(previous.push(pair).drop_last() =~= previous);
                    }
                },
                _ => {},
            }
            i = i + 1;
        }
        proof {
            assert(self@.controls.subrange(0, self@.controls.len() as int) =~= self@.controls);
        }
        let mut target = self.action.duplicate();
        if self.method == FormMethod::Get {
            if encoded.as_str().is_empty() {
                target.set_query(None);
            } else {
                target.set_query(Some(encoded.as_str()));
            }
        }
        Ok(FormSubmission { method: self.method, target, encoded })
    }
}

proof fn lemma_form_pairs_len(controls: Seq<FormControl>, submitter: Option<ControlId>)
    ensures
        form_pairs(controls, submitter).len() <= controls.len(),
    decreases controls.len(),
{
    if controls.len() > 0 {
        lemma_form_pairs_len(controls.drop_last(), submitter);
    }
}

/// Which controls a submission carries, and with which value: text and
/// password fields always carry their value; checkboxes and radio buttons only
/// when checked; a select carries the value of its selected option, and
/// nothing without one; a submit button only when it is the one that submits;
/// a plain button never.
pub proof fn law_successful_controls(control: FormControl, submitter: Option<ControlId>)
    ensures
        (control.kind == ControlKind::Text || control.kind == ControlKind::Password) ==> successful_value(
            control,
            submitter,
        ) == Some(control.value@),
        (control.kind == ControlKind::Checkbox || control.kind == ControlKind::Radio) ==> (successful_value(
            control,
            submitter,
        ) is Some <==> control.checked),
        (control.kind == ControlKind::Checkbox || control.kind == ControlKind::Radio) && control.checked
            ==> successful_value(control, submitter) == Some(control.value@),
        control.kind == ControlKind::Select && control.selected_index is Some && (control.selected_index->Some_0 as int)
            < control.options.len() ==> successful_value(control, submitter) == Some(
            control.options[control.selected_index->Some_0 as int].value@,
        ),
        control.kind == ControlKind::Select && control.selected_index is None ==> successful_value(control, submitter) is None,
        control.kind == ControlKind::Submit ==> (successful_value(control, submitter) is Some <==> submitter == Some(
            control.id,
        )),
        control.kind == ControlKind::Submit && submitter == Some(control.id) ==> successful_value(control, submitter)
            == Some(control.value@),
        control.kind == ControlKind::Button ==> successful_value(control, submitter) is None,
{
}

/// The form serializer's text for a byte reads back as that byte: ASCII
/// letters, digits and `*-._` stand for themselves, a space is `+`, and any
/// other byte is `%` and two upper-case hexadecimal digits of its value.
pub proof fn law_encoded_byte_reads_back(b: u8)
    ensures
        ((65 <= b <= 90) || (97 <= b <= 122) || (48 <= b <= 57) || b == 42 || b == 45 || b == 46 || b == 95)
            ==> encode_byte(b) == seq![b as char],
        b == 32 ==> encode_byte(b) == seq!['+'],
        !unchanged_byte(b) && b != 32 ==> (encode_byte(b).len() == 3 && encode_byte(b)[0] == '%'
            && hex_value(encode_byte(b)[1]) is Some && hex_value(encode_byte(b)[2]) is Some
            && hex_value(encode_byte(b)[1])->Some_0 as int * 16 + hex_value(encode_byte(b)[2])->Some_0 as int
            == b as int && !('a' <= encode_byte(b)[1] <= 'f') && !('a' <= encode_byte(b)[2] <= 'f')),
{
}

} // verus!
