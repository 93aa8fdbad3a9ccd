use vstd::prelude::*;

verus! {

/// One named value of a table.
#[derive(Debug, PartialEq, Eq)]
pub struct Field {
    pub key: String,
    pub value: Value,
}

/// A node of an entry's structured header: a text scalar, an ordered sequence,
/// a table of named values, or a scalar that is not text.
#[derive(Debug, PartialEq, Eq)]
pub enum Value {
    String(String),
    Array(Vec<Value>),
    Table(Vec<Field>),
    Other,
}

/// The mathematical content of one named value of a table.
pub ghost struct FieldModel {
    pub key: Seq<char>,
    pub value: ValueModel,
}

/// The mathematical content of a header value.
pub ghost enum ValueModel {
    Text(Seq<char>),
    Sequence(Seq<ValueModel>),
    Table(Seq<FieldModel>),
    Other,
}

impl View for Value {
    type V = ValueModel;

    open spec fn view(&self) -> ValueModel
        decreases self,
    {
        match self {
            Value::String(s) => ValueModel::Text(s@),
            Value::Array(items) => ValueModel::Sequence(
                Seq::new(
                    items@.len(),
                    |i: int|
                        if 0 <= i < items@.len() {
                            items@[i]@
                        } else {
                            ValueModel::Other
                        },
                ),
            ),
            Value::Table(fields) => ValueModel::Table(
                Seq::new(fields@.len(), |i: int| if 0 <= i < fields@.len() { FieldModel { key: fields@[i].key@, value: fields@[i].value@ } } else { FieldModel { key: Seq::<char>::empty(), value: ValueModel::Other } }),
            ),
            Value::Other => ValueModel::Other,
        }
    }
}

/// The content of each value of a sequence.
pub open spec fn values_view(values: Seq<Value>) -> Seq<ValueModel> {
    Seq::new(values.len(), |i: int| values[i]@)
}

/// The key and the content of each field of a table.
pub open spec fn fields_view(fields: Seq<Field>) -> Seq<FieldModel> {
    Seq::new(fields.len(), |i: int| FieldModel { key: fields[i].key@, value: fields[i].value@ })
}

/// A table's content is the keys and the contents of its fields.
pub proof fn lemma_table_view(v: Value)
    requires
        v is Table,
    ensures
        v@ == ValueModel::Table(fields_view(v->Table_0@)),
{
    let fields = v->Table_0@;
    assert(v@->Table_0 =~= fields_view(fields)) by {
        assert forall|i: int| 0 <= i < fields.len() implies v@->Table_0[i] == (FieldModel {
            key: fields[i].key@,
            value: fields[i].value@,
        }) by {}
    }
}

/// A sequence value's content is the content of its elements.
pub proof fn lemma_sequence_view(v: Value)
    requires
        v is Array,
    ensures
        v@ == ValueModel::Sequence(values_view(v->Array_0@)),
{
    let items = v->Array_0@;
    assert(v@->Sequence_0 =~= values_view(items)) by {
        assert forall|i: int| 0 <= i < items.len() implies v@->Sequence_0[i] == items[i]@ by {}
    }
}

impl Clone for Value {
    fn clone(&self) -> (r: Value)
        ensures
            r@ == self@,
        decreases self,
    {
        match self {
            Value::String(s) => Value::String(s.clone()),
            Value::Other => Value::Other,
            Value::Array(items) => {
                let mut out: Vec<Value> = Vec::new();
                let mut i: usize = 0;
                while i < items.len()
                    invariant
                        i <= items.len(),
                        *self == Value::Array(*items),
                        values_view(out@) =~= values_view(items@).take(i as int),
                    decreases items.len() - i,
                {
                    let ghost before = values_view(out@);
                    let item = &items[i];
                    proof {
                        assert(self->Array_0 == *items);
                        assert(decreases_to!(*self => self->Array_0));
                        assert(decreases_to!(*items => items@[i as int]));
                    }
                    let c = item.clone();
                    out.push(c);
                    assert(values_view(out@) =~= before.push(items@[i as int]@));
                    i += 1;
                }
                let r = Value::Array(out);
                proof {
                    assert(values_view(items@).take(i as int) =~= values_view(items@));
                    lemma_sequence_view(r);
                    lemma_sequence_view(*self);
                }
                r
            },
            Value::Table(fields) => {
                let mut out: Vec<Field> = Vec::new();
                let mut i: usize = 0;
                while i < fields.len()
                    invariant
                        i <= fields.len(),
                        *self == Value::Table(*fields),
                        fields_view(out@) =~= fields_view(fields@).take(i as int),
                    decreases fields.len() - i,
                {
                    let ghost before = fields_view(out@);
                    let field = &fields[i];
                    proof {
                        assert(self->Table_0 == *fields);
                        assert(decreases_to!(*self => self->Table_0));
                        assert(decreases_to!(*fields => fields@[i as int]));
                        assert(decreases_to!(*field => field.value));
                    }
                    let c = Field { key: field.key.clone(), value: field.value.clone() };
                    out.push(c);
                    assert(fields_view(out@) =~= before.push(
                        FieldModel { key: fields@[i as int].key@, value: fields@[i as int].value@ },
                    ));
                    i += 1;
                }
                let r = Value::Table(out);
                proof {
                    assert(fields_view(fields@).take(i as int) =~= fields_view(fields@));
                    lemma_table_view(r);
                    lemma_table_view(*self);
                }
                r
            },
        }
    }
}

} // verus!
