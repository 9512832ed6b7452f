//! The decoded tree: messages, fields, values and their candidate textual
//! representations, together with the mathematical views the contracts
//! speak of.

use vstd::prelude::*;

verus! {

broadcast use vstd::std_specs::vec::group_vec_axioms;

/// One candidate reading of a scalar: a decoded text and the label of the
/// interpretation that produced it.
#[derive(Debug)]
pub struct ValueRepresentation {
    pub value: String,
    pub format_type: String,
}

/// One occurrence of a scalar field, with every plausible decoding of the
/// same underlying bytes.
#[derive(Debug)]
pub struct Value {
    pub value_representations: Vec<ValueRepresentation>,
}

/// One field of a message: its field number, its scalar occurrences and its
/// submessage occurrences. Both lists can be filled after repeated
/// occurrences of the same field number are merged.
#[derive(Debug)]
pub struct Field {
    pub field_number: i32,
    pub values: Vec<Value>,
    pub messages: Vec<Message>,
}

/// One decoded protobuf object: an ordered sequence of fields.
#[derive(Debug)]
pub struct Message {
    pub fields: Vec<Field>,
}

/// The mathematical image of a `ValueRepresentation`.
#[verifier::ext_equal]
pub ghost struct ReprView {
    pub value: Seq<char>,
    pub format_type: Seq<char>,
}

/// The mathematical image of a `Value`.
#[verifier::ext_equal]
pub ghost struct ValueView {
    pub value_representations: Seq<ReprView>,
}

/// The mathematical image of a `Field`.
#[verifier::ext_equal]
pub ghost struct FieldView {
    pub field_number: int,
    pub values: Seq<ValueView>,
    pub messages: Seq<MessageView>,
}

/// The mathematical image of a `Message`.
#[verifier::ext_equal]
pub ghost struct MessageView {
    pub fields: Seq<FieldView>,
}

impl View for ValueRepresentation {
    type V = ReprView;

    open spec fn view(&self) -> ReprView {
        ReprView { value: self.value@, format_type: self.format_type@ }
    }
}

impl View for Value {
    type V = ValueView;

    open spec fn view(&self) -> ValueView {
        ValueView {
            value_representations: Seq::new(
                self.value_representations@.len(),
                |i: int| self.value_representations[i]@,
            ),
        }
    }
}

/// The views of a sequence of values, element for element.
pub open spec fn values_view(vs: Seq<Value>) -> Seq<ValueView> {
    Seq::new(vs.len(), |i: int| vs[i]@)
}

/// The view of a field, spelled out because fields and messages nest in
/// each other.
pub open spec fn field_view(f: Field) -> FieldView
    decreases f,
{
    proof {
        assert(decreases_to!(f => f.messages));
        assert(decreases_to!(f.messages => f.messages@));
    }
    FieldView {
        field_number: f.field_number as int,
        values: values_view(f.values@),
        messages: msgs_view(f.messages@),
    }
}

/// The views of a sequence of fields, element for element.
pub open spec fn fields_view(fs: Seq<Field>) -> Seq<FieldView>
    decreases fs,
{
    if fs.len() == 0 {
        Seq::empty()
    } else {
        fields_view(fs.subrange(0, fs.len() - 1)).push(field_view(fs[fs.len() - 1]))
    }
}

/// The views of a sequence of messages, element for element.
pub open spec fn msgs_view(ms: Seq<Message>) -> Seq<MessageView>
    decreases ms,
{
    if ms.len() == 0 {
        Seq::empty()
    } else {
        msgs_view(ms.subrange(0, ms.len() - 1)).push(msg_view(ms[ms.len() - 1]))
    }
}

/// The view of a message, spelled out because fields and messages nest in
/// each other.
pub open spec fn msg_view(m: Message) -> MessageView
    decreases m,
{
    proof {
        assert(decreases_to!(m => m.fields));
        assert(decreases_to!(m.fields => m.fields@));
    }
    MessageView { fields: fields_view(m.fields@) }
}

/// A sequence of fields and its view line up index for index.
pub broadcast proof fn lemma_fields_view_len(fs: Seq<Field>)
    ensures
        (#[trigger] fields_view(fs)).len() == fs.len(),
    decreases fs.len(),
{
    if fs.len() > 0 {
        lemma_fields_view_len(fs.subrange(0, fs.len() - 1));
    }
}

/// The view of a sequence of fields holds each field's view.
pub broadcast proof fn lemma_fields_view_index(fs: Seq<Field>, i: int)
    requires
        0 <= i < fs.len(),
    ensures
        #[trigger] fields_view(fs)[i] == field_view(fs[i]),
    decreases fs.len(),
{
    lemma_fields_view_len(fs);
    if i < fs.len() - 1 {
        lemma_fields_view_index(fs.subrange(0, fs.len() - 1), i);
    } else {
        lemma_fields_view_len(fs.subrange(0, fs.len() - 1));
    }
}

/// A sequence of messages and its view line up index for index.
pub broadcast proof fn lemma_msgs_view_len(ms: Seq<Message>)
    ensures
        (#[trigger] msgs_view(ms)).len() == ms.len(),
    decreases ms.len(),
{
    if ms.len() > 0 {
        lemma_msgs_view_len(ms.subrange(0, ms.len() - 1));
    }
}

/// The view of a sequence of messages holds each message's view.
pub broadcast proof fn lemma_msgs_view_index(ms: Seq<Message>, i: int)
    requires
        0 <= i < ms.len(),
    ensures
        #[trigger] msgs_view(ms)[i] == msg_view(ms[i]),
    decreases ms.len(),
{
    lemma_msgs_view_len(ms);
    if i < ms.len() - 1 {
        lemma_msgs_view_index(ms.subrange(0, ms.len() - 1), i);
    } else {
        lemma_msgs_view_len(ms.subrange(0, ms.len() - 1));
    }
}

impl View for Field {
    type V = FieldView;

    open spec fn view(&self) -> FieldView {
        field_view(*self)
    }
}

impl View for Message {
    type V = MessageView;

    open spec fn view(&self) -> MessageView {
        msg_view(*self)
    }
}

/// Viewing a sequence of fields commutes with appending one field.
pub proof fn lemma_fields_view_push(fs: Seq<Field>, f: Field)
    ensures
        fields_view(fs.push(f)) == fields_view(fs).push(field_view(f)),
{
    lemma_fields_view_len(fs);
    lemma_fields_view_len(fs.push(f));
    assert forall|i: int| 0 <= i < fs.len() + 1 implies #[trigger] fields_view(fs.push(f))[i]
        == fields_view(fs).push(field_view(f))[i] by {
        lemma_fields_view_index(fs.push(f), i);
        if i < fs.len() {
            lemma_fields_view_index(fs, i);
        }
    }
    assert(fields_view(fs.push(f)) =~= fields_view(fs).push(field_view(f)));
}

/// What merging a field into a sequence of fields yields: the first field
/// with the same number absorbs the new field's values and messages, in
/// order; without such a field, the new field is appended.
pub open spec fn spec_add_field(fields: Seq<FieldView>, f: FieldView) -> Seq<FieldView>
    decreases fields.len(),
{
    if fields.len() == 0 {
        seq![f]
    } else if fields[0].field_number == f.field_number {
        seq![
            FieldView {
                field_number: fields[0].field_number,
                values: fields[0].values + f.values,
                messages: fields[0].messages + f.messages,
            },
        ] + fields.drop_first()
    } else {
        seq![fields[0]] + spec_add_field(fields.drop_first(), f)
    }
}

/// Merging leaves the fields before the merge point untouched.
proof fn lemma_add_field_skip(fields: Seq<FieldView>, f: FieldView, j: int)
    requires
        0 <= j <= fields.len(),
        forall|i: int| 0 <= i < j ==> (#[trigger] fields[i]).field_number != f.field_number,
    ensures
        spec_add_field(fields, f) == fields.take(j) + spec_add_field(fields.skip(j), f),
    decreases j,
{
    if j == 0 {
        assert(fields.take(0) =~= Seq::<FieldView>::empty());
        assert(fields.skip(0) =~= fields);
        assert(spec_add_field(fields, f) =~= fields.take(0) + spec_add_field(fields.skip(0), f));
    } else {
        lemma_add_field_skip(fields.drop_first(), f, j - 1);
        assert(fields.drop_first().take(j - 1) =~= fields.take(j).drop_first());
        assert(fields.drop_first().skip(j - 1) =~= fields.skip(j));
        assert(seq![fields[0]] + (fields.take(j).drop_first() + spec_add_field(fields.skip(j), f))
            =~= fields.take(j) + spec_add_field(fields.skip(j), f));
    }
}

impl Message {
    /// Folds a field into this message: the first existing field with the
    /// same field number absorbs the new field's values and messages, in
    /// order; without one, the field is appended as a new entry.
    pub fn add_field(&mut self, field: Field)
        ensures
            final (self)@.fields == spec_add_field(old(self)@.fields, field@),
    {
        let ghost orig_vec = self.fields@;
        let ghost orig_fields = self@.fields;
        let ghost fv = field@;
        proof {
            lemma_fields_view_len(orig_vec);
        }
        let n: usize = self.fields.len();
        let mut j: usize = 0;
        while j < n
            invariant
                n == self.fields@.len(),
                0 <= j <= n,
                *self == *old(self),
                orig_vec == self.fields@,
                orig_fields == self@.fields,
                fv == field@,
                forall|i: int|
                    0 <= i < j ==> (#[trigger] fields_view(orig_vec)[i]).field_number
                        != fv.field_number,
            decreases n - j,
        {
            proof {
                lemma_fields_view_len(orig_vec);
                lemma_fields_view_index(orig_vec, j as int);
            }
            if self.fields[j].field_number == field.field_number {
                let mut existing: Field = self.fields.remove(j);
                let ghost e = field_view(existing);
                proof {
                    assert(e == orig_fields[j as int]);
                }
                let ghost pre_values = existing.values@;
                let ghost pre_msgs = existing.messages@;
                let Field { field_number: _, values: mut vs, messages: mut ms } = field;
                let ghost new_values = field.values@;
                let ghost new_msgs = field.messages@;
                existing.values.append(&mut vs);
                existing.messages.append(&mut ms);
                proof {
                    assert(existing.values@ == pre_values + new_values);
                    assert(existing.messages@ == pre_msgs + new_msgs);
                    lemma_msgs_view_len(pre_msgs);
                    lemma_msgs_view_len(new_msgs);
                    lemma_msgs_view_len(pre_msgs + new_msgs);
                    assert forall|i: int| 0 <= i < pre_msgs.len() + new_msgs.len() implies
                    #[trigger] msgs_view(pre_msgs + new_msgs)[i] == (msgs_view(pre_msgs)
                        + msgs_view(new_msgs))[i] by {
                        lemma_msgs_view_index(pre_msgs + new_msgs, i);
                        if i < pre_msgs.len() {
                            lemma_msgs_view_index(pre_msgs, i);
                        } else {
                            lemma_msgs_view_index(new_msgs, i - pre_msgs.len());
                        }
                    }
                    assert(field_view(existing).values =~= e.values + fv.values);
                    assert(field_view(existing).messages =~= e.messages + fv.messages);
                    assert(field_view(existing) == FieldView {
                        field_number: e.field_number,
                        values: e.values + fv.values,
                        messages: e.messages + fv.messages,
                    });
                }
                self.fields.insert(j, existing);
                proof {
                    let ghost merged = field_view(existing);
                    lemma_add_field_skip(orig_fields, fv, j as int);
                    assert(orig_fields.skip(j as int)[0] == e);
                    assert(spec_add_field(orig_fields.skip(j as int), fv) == seq![merged]
                        + orig_fields.skip(j as int).drop_first());
                    lemma_fields_view_len(self.fields@);
                    assert forall|i: int| 0 <= i < self.fields@.len() implies #[trigger] self@
                        .fields[i] == (orig_fields.take(j as int) + (seq![merged]
                        + orig_fields.skip(j as int).drop_first()))[i] by {
                        lemma_fields_view_index(self.fields@, i);
                        if i != j {
                            lemma_fields_view_index(orig_vec, i);
                        }
                    }
                    assert(self@.fields =~= orig_fields.take(j as int) + (seq![merged]
                        + orig_fields.skip(j as int).drop_first()));
                }
                return ;
            }
            j += 1;
        }
        self.fields.push(field);
        proof {
            lemma_add_field_skip(orig_fields, fv, n as int);
            assert(orig_fields.skip(n as int) =~= Seq::<FieldView>::empty());
            assert(spec_add_field(orig_fields.skip(n as int), fv) == seq![fv]);
            lemma_fields_view_len(self.fields@);
            assert forall|i: int| 0 <= i < self.fields@.len() implies #[trigger] self@.fields[i]
                == (orig_fields.take(n as int) + seq![fv])[i] by {
                lemma_fields_view_index(self.fields@, i);
                if i < n {
                    lemma_fields_view_index(orig_vec, i);
                }
            }
            assert(self@.fields =~= orig_fields.take(n as int) + seq![fv]);
        }
    }
}

} // verus!
