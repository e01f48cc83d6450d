//! The selection stage: projects a record onto an include or exclude key
//! set, optionally renaming retained keys.

use vstd::prelude::*;
use crate::error::Error;
use crate::field::{Field, FieldV, Fields, parse_field, parse_field_spec};
use crate::value::{
    Value, assoc_filter_keys, assoc_get, assoc_has_key, assoc_insert, assoc_remove, assoc_unique,
    key_filter_pred, lemma_assoc_filter_unique, lemma_assoc_insert_props, lemma_assoc_remove_props,
    lemma_filter_single, str_eq,
};

verus! {

/// Whether a selection keeps the named fields or drops them.
#[derive(Debug, Clone, Copy, PartialEq, Eq, Structural)]
pub enum SelectType {
    Include,
    Exclude,
}

impl Default for SelectType {
    fn default() -> (r: Self)
        ensures
            r == SelectType::Include,
    {
        SelectType::Include
    }
}

/// The message reported for an unrecognized selection mode keyword.
pub open spec fn unsupported_mode_message(word: Seq<char>) -> Seq<char> {
    "'"@ + word + "', expect 'include' or 'exclude'"@
}

impl SelectType {
    /// Reads the mode keyword; only `include` and `exclude` are recognized.
    pub fn try_from(value: String) -> (r: Result<SelectType, Error>)
        ensures
            value@ == "include"@ ==> r == Ok::<SelectType, Error>(SelectType::Include),
            value@ == "exclude"@ ==> r == Ok::<SelectType, Error>(SelectType::Exclude),
            value@ != "include"@ && value@ != "exclude"@ ==> (r matches Err(e) && e matches
                Error::ProcessorUnsupportedValue { processor, val } && processor@ == "select"@
                && val@ == unsupported_mode_message(value@)),
    {
        proof {
            reveal_strlit("include");
            reveal_strlit("exclude");
            assert("include"@[0] == 'i');
            assert("exclude"@[0] == 'e');
            assert("include"@ != "exclude"@);
        }
        if str_eq(value.as_str(), "include") {
            Ok(SelectType::Include)
        } else if str_eq(value.as_str(), "exclude") {
            Ok(SelectType::Exclude)
        } else {
            let val = String::from_str("'").concat(value.as_str()).concat(
                "', expect 'include' or 'exclude'",
            );
            Err(Error::ProcessorUnsupportedValue { processor: String::from_str("select"), val })
        }
    }
}

/// One rename pass: when the field has a target and the record binds the
/// input name, the value moves from the input name to the target name.
pub open spec fn apply_rename(s: Seq<(Seq<char>, Value)>, fv: FieldV) -> Seq<(Seq<char>, Value)> {
    match fv.target {
        Option::None => s,
        Option::Some(t) => if assoc_has_key(s, fv.input) {
            assoc_insert(assoc_remove(s, fv.input), t, assoc_get(s, fv.input))
        } else {
            s
        },
    }
}

/// All rename passes, in field-list order; a later rename to the same target
/// wins.
pub open spec fn apply_renames(s: Seq<(Seq<char>, Value)>, fields: Seq<FieldV>) -> Seq<
    (Seq<char>, Value),
>
    decreases fields.len(),
{
    if fields.len() == 0 {
        s
    } else {
        apply_renames(apply_rename(s, fields[0]), fields.drop_first())
    }
}

/// The names the fields are emitted under.
pub open spec fn rendered_names(fields: Seq<FieldV>) -> Seq<Seq<char>> {
    fields.map_values(|fv: FieldV| Field::rendered(fv))
}

/// The names the fields are looked up under.
pub open spec fn input_names(fields: Seq<FieldV>) -> Seq<Seq<char>> {
    fields.map_values(|fv: FieldV| fv.input)
}

/// Include: rename, then keep exactly the entries under a rendered name.
pub open spec fn include_spec(fields: Seq<FieldV>, s: Seq<(Seq<char>, Value)>) -> Seq<
    (Seq<char>, Value),
> {
    assoc_filter_keys(apply_renames(s, fields), rendered_names(fields), true)
}

/// Exclude: drop exactly the entries under an input name; renames have no
/// effect in this mode.
pub open spec fn exclude_spec(fields: Seq<FieldV>, s: Seq<(Seq<char>, Value)>) -> Seq<
    (Seq<char>, Value),
> {
    assoc_filter_keys(s, input_names(fields), false)
}

/// What a selection leaves of a record's entries.
pub open spec fn select_spec(
    ty: SelectType,
    fields: Seq<FieldV>,
    s: Seq<(Seq<char>, Value)>,
) -> Seq<(Seq<char>, Value)> {
    match ty {
        SelectType::Include => include_spec(fields, s),
        SelectType::Exclude => exclude_spec(fields, s),
    }
}

/// The outcome of reading a list of field specifications.
pub enum FieldListOutcome {
    Parsed(Seq<FieldV>),
    NotString,
    BadField,
}

/// How a list of field specifications reads, front first, stopping at the
/// first element that is not a string or has an empty input name.
pub open spec fn field_list_from(acc: Seq<FieldV>, vs: Seq<Value>) -> FieldListOutcome
    decreases vs.len(),
{
    if vs.len() == 0 {
        FieldListOutcome::Parsed(acc)
    } else {
        match vs[0] {
            Value::Str(s) => match parse_field_spec(s@) {
                Option::Some(fv) => field_list_from(acc.push(fv), vs.drop_first()),
                Option::None => FieldListOutcome::BadField,
            },
            _ => FieldListOutcome::NotString,
        }
    }
}

/// The outcome of reading a selection stage configuration.
pub enum SelectConfigOutcome {
    Parsed { fields: Seq<FieldV>, select_type: SelectType },
    BadKey,
    BadValue,
    BadField,
    BadMode { word: Seq<char> },
}

/// How a selection configuration reads, entry by entry: `field` sets a
/// single field, `fields` a list, `type` the mode; unrecognized keys are
/// ignored; a later entry overrides an earlier one.
pub open spec fn select_outcome_from(
    fields: Seq<FieldV>,
    ty: SelectType,
    entries: Seq<(Value, Value)>,
) -> SelectConfigOutcome
    decreases entries.len(),
{
    if entries.len() == 0 {
        SelectConfigOutcome::Parsed { fields, select_type: ty }
    } else {
        let kv = entries[0];
        match kv.0 {
            Value::Str(ks) => if ks@ == "field"@ {
                match kv.1 {
                    Value::Str(s) => match parse_field_spec(s@) {
                        Option::Some(fv) => select_outcome_from(
                            seq![fv],
                            ty,
                            entries.drop_first(),
                        ),
                        Option::None => SelectConfigOutcome::BadField,
                    },
                    _ => SelectConfigOutcome::BadValue,
                }
            } else if ks@ == "fields"@ {
                match kv.1 {
                    Value::Array(vs) => match field_list_from(Seq::empty(), vs@) {
                        FieldListOutcome::Parsed(fvs) => select_outcome_from(
                            fvs,
                            ty,
                            entries.drop_first(),
                        ),
                        FieldListOutcome::NotString => SelectConfigOutcome::BadValue,
                        FieldListOutcome::BadField => SelectConfigOutcome::BadField,
                    },
                    _ => SelectConfigOutcome::BadValue,
                }
            } else if ks@ == "type"@ {
                match kv.1 {
                    Value::Str(s) => if s@ == "include"@ {
                        select_outcome_from(fields, SelectType::Include, entries.drop_first())
                    } else if s@ == "exclude"@ {
                        select_outcome_from(fields, SelectType::Exclude, entries.drop_first())
                    } else {
                        SelectConfigOutcome::BadMode { word: s@ }
                    },
                    _ => SelectConfigOutcome::BadValue,
                }
            } else {
                select_outcome_from(fields, ty, entries.drop_first())
            },
            _ => SelectConfigOutcome::BadKey,
        }
    }
}

/// How a selection configuration reads from its defaults: no fields,
/// include mode.
pub open spec fn select_config_outcome(entries: Seq<(Value, Value)>) -> SelectConfigOutcome {
    select_outcome_from(Seq::empty(), SelectType::Include, entries)
}

/// A selection stage: an ordered field list and a mode.
#[derive(Debug)]
pub struct SelectProcessor {
    pub fields: Fields,
    pub select_type: SelectType,
}

impl Default for SelectProcessor {
    fn default() -> (r: Self)
        ensures
            r.fields@ == Seq::<FieldV>::empty(),
            r.select_type == SelectType::Include,
    {
        SelectProcessor { fields: Fields::empty(), select_type: SelectType::Include }
    }
}

/// Reads a list of field specification strings.
fn parse_field_list(vs: &Vec<Value>) -> (r: Result<Fields, Error>)
    ensures
        match field_list_from(Seq::empty(), vs@) {
            FieldListOutcome::Parsed(fvs) => r matches Ok(fs) && fs@ == fvs,
            FieldListOutcome::NotString => r == Err::<Fields, Error>(Error::ValueMustBeString),
            FieldListOutcome::BadField => r == Err::<Fields, Error>(Error::EmptyField),
        },
{
    let mut acc: Vec<Field> = Vec::new();
    let n = vs.len();
    let mut i: usize = 0;
    proof {
        assert(acc.deep_view() =~= Seq::<FieldV>::empty());
        assert(vs@.skip(0) =~= vs@);
    }
    while i < n
        invariant
            n == vs@.len(),
            0 <= i <= n,
            field_list_from(Seq::empty(), vs@) == field_list_from(acc.deep_view(), vs@.skip(i as int)),
        decreases n - i,
    {
        proof {
            assert(vs@.skip(i as int)[0] == vs@[i as int]);
            assert(vs@.skip(i as int).drop_first() =~= vs@.skip(i as int + 1));
        }
        let ghost acc0 = acc.deep_view();
        match &vs[i] {
            Value::Str(s) => {
                match parse_field(s.as_str()) {
                    Ok(f) => {
                        acc.push(f);
                        proof {
                            assert(acc.deep_view() =~= acc0.push(f@));
                        }
                    },
                    Err(e) => {
                        return Err(e);
                    },
                }
            },
            _ => {
                return Err(Error::ValueMustBeString);
            },
        }
        i += 1;
    }
    proof {
        assert(vs@.skip(n as int) =~= Seq::<Value>::empty());
    }
    Ok(Fields::new(acc))
}

impl SelectProcessor {
    /// Reads a selection stage configuration given as ordered key/value
    /// pairs; every key must be a string, and unrecognized keys are ignored.
    pub fn try_from(config: &Vec<(Value, Value)>) -> (r: Result<SelectProcessor, Error>)
        ensures
            match select_config_outcome(config@) {
                SelectConfigOutcome::Parsed { fields, select_type } => r matches Ok(p)
                    && p.fields@ == fields && p.select_type == select_type,
                SelectConfigOutcome::BadKey => r == Err::<SelectProcessor, Error>(
                    Error::KeyMustBeString,
                ),
                SelectConfigOutcome::BadValue => r == Err::<SelectProcessor, Error>(
                    Error::ValueMustBeString,
                ),
                SelectConfigOutcome::BadField => r == Err::<SelectProcessor, Error>(
                    Error::EmptyField,
                ),
                SelectConfigOutcome::BadMode { word } => r matches Err(e) && e matches
                    Error::ProcessorUnsupportedValue { processor, val } && processor@ == "select"@
                    && val@ == unsupported_mode_message(word),
            },
    {
        let mut fields = Fields::empty();
        let mut select_type = SelectType::Include;
        let n = config.len();
        let mut i: usize = 0;
        proof {
            assert(config@.skip(0) =~= config@);
        }
        while i < n
            invariant
                n == config@.len(),
                0 <= i <= n,
                select_config_outcome(config@) == select_outcome_from(
                    fields@,
                    select_type,
                    config@.skip(i as int),
                ),
            decreases n - i,
        {
            proof {
                assert(config@.skip(i as int)[0] == config@[i as int]);
                assert(config@.skip(i as int).drop_first() =~= config@.skip(i as int + 1));
            }
            let entry = &config[i];
            match &entry.0 {
                Value::Str(key) => {
                    if str_eq(key.as_str(), "field") {
                        match &entry.1 {
                            Value::Str(s) => {
                                match parse_field(s.as_str()) {
                                    Ok(f) => {
                                        fields = Fields::one(f);
                                    },
                                    Err(e) => {
                                        return Err(e);
                                    },
                                }
                            },
                            _ => {
                                return Err(Error::ValueMustBeString);
                            },
                        }
                    } else if str_eq(key.as_str(), "fields") {
                        match &entry.1 {
                            Value::Array(vs) => {
                                match parse_field_list(vs) {
                                    Ok(fs) => {
                                        fields = fs;
                                    },
                                    Err(e) => {
                                        return Err(e);
                                    },
                                }
                            },
                            _ => {
                                return Err(Error::ValueMustBeString);
                            },
                        }
                    } else if str_eq(key.as_str(), "type") {
                        match &entry.1 {
                            Value::Str(s) => {
                                match SelectType::try_from(s.clone()) {
                                    Ok(t) => {
                                        select_type = t;
                                    },
                                    Err(e) => {
                                        return Err(e);
                                    },
                                }
                            },
                            _ => {
                                return Err(Error::ValueMustBeString);
                            },
                        }
                    }
                },
                _ => {
                    return Err(Error::KeyMustBeString);
                },
            }
            i += 1;
        }
        proof {
            assert(config@.skip(n as int) =~= Seq::<(Value, Value)>::empty());
        }
        Ok(SelectProcessor { fields, select_type })
    }

    /// The stage's kind keyword.
    pub fn kind(&self) -> (r: &'static str)
        ensures
            r@ == "select"@,
    {
        "select"
    }

    /// Selection tolerates fields absent from the record.
    pub fn ignore_missing(&self) -> (r: bool)
        ensures
            r,
    {
        true
    }

    /// Transforms a record: the record must be an object map; its entries are
    /// then projected as `select_spec` says.
    pub fn exec_mut(&self, val: Value) -> (r: Result<Value, Error>)
        requires
            val matches Value::Object(m) ==> m.wf(),
        ensures
            match val {
                Value::Object(m) => r matches Ok(out) && out matches Value::Object(m2) && m2.wf()
                    && m2.entries_view() == select_spec(
                    self.select_type,
                    self.fields@,
                    m.entries_view(),
                ),
                _ => r == Err::<Value, Error>(Error::ValueMustBeMap),
            },
    {
        match val {
            Value::Object(mut map) => {
                match self.select_type {
                    SelectType::Include => {
                        let ghost s0 = map.entries_view();
                        let mut include_keys: Vec<String> = Vec::new();
                        let nf = self.fields.len();
                        let mut i: usize = 0;
                        proof {
                            assert(self.fields@.skip(0) =~= self.fields@);
                            assert(include_keys.deep_view() =~= rendered_names(
                                self.fields@.take(0),
                            ));
                        }
                        while i < nf
                            invariant
                                nf == self.fields@.len(),
                                0 <= i <= nf,
                                map.wf(),
                                apply_renames(s0, self.fields@) == apply_renames(
                                    map.entries_view(),
                                    self.fields@.skip(i as int),
                                ),
                                include_keys.deep_view() == rendered_names(
                                    self.fields@.take(i as int),
                                ),
                            decreases nf - i,
                        {
                            let ghost fv = self.fields@[i as int];
                            let ghost keys0 = include_keys.deep_view();
                            let ghost prev = map.entries_view();
                            proof {
                                assert(self.fields@.skip(i as int)[0] == fv);
                                assert(self.fields@.skip(i as int).drop_first() =~= self.fields@.skip(
                                    i as int + 1,
                                ));
                            }
                            let field = self.fields.get(i);
                            match field.target_field() {
                                Some(t) => {
                                    match map.remove(field.input_field()) {
                                        Some(v) => {
                                            map.insert(t.to_owned(), v);
                                        },
                                        None => {
                                        },
                                    }
                                    include_keys.push(t.to_owned());
                                },
                                None => {
                                    include_keys.push(field.input_field().to_owned());
                                },
                            }
                            proof {
                                assert(map.entries_view() == apply_rename(prev, fv));
                                assert(include_keys.deep_view() =~= keys0.push(Field::rendered(fv)));
                                assert(rendered_names(self.fields@.take(i as int + 1)) =~= rendered_names(
                                    self.fields@.take(i as int),
                                ).push(Field::rendered(fv)));
                            }
                            i += 1;
                        }
                        proof {
                            assert(self.fields@.skip(nf as int) =~= Seq::<FieldV>::empty());
                            assert(self.fields@.take(nf as int) =~= self.fields@);
                        }
                        map.retain_keys(&include_keys);
                        Ok(Value::Object(map))
                    },
                    SelectType::Exclude => {
                        let mut exclude_keys: Vec<String> = Vec::new();
                        let nf = self.fields.len();
                        let mut i: usize = 0;
                        proof {
                            assert(exclude_keys.deep_view() =~= input_names(self.fields@.take(0)));
                        }
                        while i < nf
                            invariant
                                nf == self.fields@.len(),
                                0 <= i <= nf,
                                exclude_keys.deep_view() == input_names(self.fields@.take(i as int)),
                            decreases nf - i,
                        {
                            let ghost fv = self.fields@[i as int];
                            let ghost keys0 = exclude_keys.deep_view();
                            let field = self.fields.get(i);
                            exclude_keys.push(field.input_field().to_owned());
                            proof {
                                assert(exclude_keys.deep_view() =~= keys0.push(fv.input));
                                assert(input_names(self.fields@.take(i as int + 1)) =~= input_names(
                                    self.fields@.take(i as int),
                                ).push(fv.input));
                            }
                            i += 1;
                        }
                        proof {
                            assert(self.fields@.take(nf as int) =~= self.fields@);
                        }
                        map.remove_keys(&exclude_keys);
                        Ok(Value::Object(map))
                    },
                }
            },
            _ => Err(Error::ValueMustBeMap),
        }
    }
}


/// Law: selecting field `a` renamed to `b` under Include leaves exactly the
/// key `b`, bound to the value the record held at `a`, for any record with
/// distinct keys that binds `a` — whatever other keys stand beside it.
pub proof fn lemma_rename_then_include(a: Seq<char>, b: Seq<char>, s: Seq<(Seq<char>, Value)>)
    requires
        assoc_unique(s),
        assoc_has_key(s, a),
    ensures
        include_spec(seq![FieldV { input: a, target: Some(b) }], s) =~= seq![(b, assoc_get(s, a))],
{
    let fv = FieldV { input: a, target: Some(b) };
    let fields = seq![fv];
    assert(fields.drop_first() =~= Seq::<FieldV>::empty());
    assert(fields[0] == fv);
    assert(apply_renames(s, fields) == apply_rename(s, fv)) by {
        reveal_with_fuel(apply_renames, 2);
    }
    let v = assoc_get(s, a);
    let s1 = assoc_remove(s, a);
    let m1 = assoc_insert(s1, b, v);
    assert(apply_rename(s, fv) == m1);
    lemma_assoc_remove_props(s, a);
    lemma_assoc_insert_props(s1, b, v);
    let names = rendered_names(fields);
    assert(names =~= seq![b]);
    assert(names[0] == b);
    assert forall|k: Seq<char>| #[trigger] names.contains(k) implies k == b by {
        let j = choose|j: int| 0 <= j < names.len() && names[j] == k;
        assert(names[j] == b);
    }
    assert(names.contains(b));
    let pred = key_filter_pred(names, true);
    let ib = crate::value::assoc_index_of(m1, b);
    assert(0 <= ib < m1.len() && m1[ib] == (b, v));
    assert(pred(m1[ib]));
    assert forall|j: int| 0 <= j < m1.len() && j != ib implies !pred(#[trigger] m1[j]) by {
        assert(m1[j].0 != m1[ib].0);
        assert(!names.contains(m1[j].0));
    }
    lemma_filter_single(m1, pred, ib);
    assert(include_spec(fields, s) == m1.filter(pred));
}

/// Law: Exclude never introduces keys. Every key of the output was a key of
/// the input, and is not one of the excluded input names.
pub proof fn lemma_exclude_no_new_keys(
    fields: Seq<FieldV>,
    s: Seq<(Seq<char>, Value)>,
    k: Seq<char>,
)
    requires
        assoc_unique(s),
        assoc_has_key(exclude_spec(fields, s), k),
    ensures
        assoc_has_key(s, k),
        !input_names(fields).contains(k),
{
    let pred = key_filter_pred(input_names(fields), false);
    let out = s.filter(pred);
    assert(exclude_spec(fields, s) == out);
    lemma_assoc_filter_unique(s, pred);
    s.filter_lemma(pred);
    let i = choose|i: int| 0 <= i < out.len() && (#[trigger] out[i]).0 == k;
    assert(pred(out[i]));
    assert(input_names(fields).contains(k) == false);
    let j = choose|j: int| 0 <= j < s.len() && #[trigger] out[i] == s[j];
    assert(s[j].0 == k);
}

} // verus!
