//! Statistics of an interactive form.

use vstd::prelude::*;

verus! {

/// How many fields a form has.
#[derive(Debug, Clone, Copy, PartialEq, Eq, Structural)]
pub struct AcroFormStats {
    pub field_count: usize,
    pub has_fields: bool,
}

impl AcroFormStats {
    pub fn new(field_count: usize) -> (r: Self)
        ensures
            r.field_count == field_count,
            r.has_fields == (field_count > 0),
    {
        AcroFormStats { field_count, has_fields: field_count > 0 }
    }
}

/// What field counting reads of a PDF value: the items of an array, the entries of a
/// dictionary that mark a field (`T`, `FT`, `Kids`) with the value of `Kids`, or nothing of
/// any other value.
pub enum FormValue {
    Array(Vec<FormValue>),
    Dictionary(FormDict),
    Other,
}

/// What field counting reads of a dictionary.
pub struct FormDict {
    pub has_t: bool,
    pub has_ft: bool,
    pub kids: Option<Box<FormValue>>,
}

/// A dictionary is a field when it has a `T`, `FT` or `Kids` entry.
pub open spec fn is_field(d: FormDict) -> bool {
    d.has_t || d.has_ft || d.kids is Some
}

/// The fields found in `v` at nesting `depth`: each field dictionary, and those in array
/// items and under `Kids`, no deeper than 64 levels.
pub open spec fn fields_in(v: FormValue, depth: nat) -> nat
    decreases v, 0nat,
{
    if depth > 64 {
        0
    } else {
        match v {
            FormValue::Array(items) => fields_in_items(items@, items@.len() as int, (depth + 1) as nat),
            FormValue::Dictionary(d) => (if is_field(d) {
                1nat
            } else {
                0nat
            }) + match d.kids {
                Some(k) => fields_in(*k, depth + 1),
                None => 0,
            },
            FormValue::Other => 0,
        }
    }
}

/// The fields found in the first `n` items at nesting `depth`.
pub open spec fn fields_in_items(items: Seq<FormValue>, n: int, depth: nat) -> nat
    decreases items, n,
{
    if n <= 0 || n > items.len() {
        0
    } else {
        fields_in_items(items, n - 1, depth) + fields_in(items[n - 1], depth)
    }
}

/// Adds the fields found in `v` at nesting `depth` to `count`.
fn count_fields_value(v: &FormValue, count: &mut usize, depth: usize)
    requires
        *old(count) + fields_in(*v, depth as nat) <= usize::MAX,
    ensures
        *final(count) == *old(count) + fields_in(*v, depth as nat),
    decreases v,
{
    if depth > 64 {
        return;
    }
    match v {
        FormValue::Array(items) => {
            let ghost start = *count;
            let mut i: usize = 0;
            while i < items.len()
                invariant
                    i <= items@.len(),
                    depth <= 64,
                    *v == FormValue::Array(*items),
                    start + fields_in(*v, depth as nat) <= usize::MAX,
                    fields_in(*v, depth as nat) == fields_in_items(items@, items@.len() as int, (depth + 1) as nat),
                    *count == start + fields_in_items(items@, i as int, (depth + 1) as nat),
                decreases items@.len() - i,
            {
                proof {
                    assert(decreases_to!(*v => (*v)->Array_0));
                    assert(decreases_to!(*items => items@));
                    assert(decreases_to!(items@ => items@[i as int]));
                    lemma_items_prefix(items@, i + 1, items@.len() as int, (depth + 1) as nat);
                }
                count_fields_value(&items[i], count, depth + 1);
                i += 1;
            }
        },
        FormValue::Dictionary(d) => {
            if d.has_t || d.has_ft || d.kids.is_some() {
                *count = *count + 1;
            }
            match &d.kids {
                Some(k) => {
                    proof {
                        assert(decreases_to!(*v => (*v)->Dictionary_0));
                    }
                    count_fields_value(&**k, count, depth + 1);
                },
                None => {},
            }
        },
        FormValue::Other => {},
    }
}

/// The fields in a prefix of the items are no more than those in a longer prefix.
proof fn lemma_items_prefix(items: Seq<FormValue>, m: int, n: int, depth: nat)
    requires
        0 <= m <= n <= items.len(),
    ensures
        fields_in_items(items, m, depth) <= fields_in_items(items, n, depth),
    decreases n - m,
{
    if m < n {
        lemma_items_prefix(items, m, n - 1, depth);
    }
}

/// The field count of a form whose `Fields` entry is `fields`.
pub open spec fn form_field_count(fields: Option<FormValue>) -> nat {
    match fields {
        Some(v) => fields_in(v, 0),
        None => 0,
    }
}

/// Counts the fields of a form from its `Fields` entry.
pub fn count_fields_in_acroform(fields: Option<&FormValue>) -> (r: AcroFormStats)
    requires
        form_field_count(
            match fields {
                Some(v) => Some(*v),
                None => None,
            },
        ) <= usize::MAX,
    ensures
        r.field_count == form_field_count(
            match fields {
                Some(v) => Some(*v),
                None => None,
            },
        ),
        r.has_fields == (r.field_count > 0),
{
    let mut count: usize = 0;
    if let Some(v) = fields {
        count_fields_value(v, &mut count, 0);
    }
    AcroFormStats::new(count)
}

/// A form is hybrid when it has an XFA part and AcroForm fields.
pub fn has_hybrid_forms(has_xfa: bool, fields: Option<&FormValue>) -> (r: bool)
    requires
        form_field_count(
            match fields {
                Some(v) => Some(*v),
                None => None,
            },
        ) <= usize::MAX,
    ensures
        r == (has_xfa && form_field_count(
            match fields {
                Some(v) => Some(*v),
                None => None,
            },
        ) > 0),
{
    if !has_xfa {
        return false;
    }
    let stats = count_fields_in_acroform(fields);
    stats.has_fields
}

} // verus!
