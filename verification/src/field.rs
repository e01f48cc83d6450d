//! Field addressing: an input name with an optional rename for emission.

use vstd::prelude::*;
use crate::error::Error;

verus! {

/// The mathematical content of a [`Field`].
pub struct FieldV {
    pub input: Seq<char>,
    pub target: Option<Seq<char>>,
}

/// A field a stage operates on: looked up under `input_name`, emitted under
/// the rename `output_name` when one is set.
#[derive(Debug)]
pub struct Field {
    input_name: String,
    output_name: Option<String>,
}

impl View for Field {
    type V = FieldV;

    closed spec fn view(&self) -> FieldV {
        FieldV { input: self.input_name@, target: self.output_name.deep_view() }
    }
}

impl DeepView for Field {
    type V = FieldV;

    open spec fn deep_view(&self) -> FieldV {
        self.view()
    }
}

impl Field {
    pub fn new(input_field: &str, target_field: Option<String>) -> (r: Self)
        ensures
            r@.input == input_field@,
            r@.target == target_field.deep_view(),
    {
        Field { input_name: input_field.to_owned(), output_name: target_field }
    }

    /// The name the field is looked up under.
    pub fn input_field(&self) -> (r: &str)
        ensures
            r@ == self@.input,
    {
        self.input_name.as_str()
    }

    /// The rename, when one is set.
    pub fn target_field(&self) -> (r: Option<&str>)
        ensures
            match r {
                Some(t) => self@.target == Some(t@),
                None => self@.target is None,
            },
    {
        match &self.output_name {
            Some(s) => Some(s.as_str()),
            None => None,
        }
    }

    /// The name the field is emitted under: the rename, or the input name.
    pub open spec fn rendered(fv: FieldV) -> Seq<char> {
        match fv.target {
            Some(t) => t,
            None => fv.input,
        }
    }
}

/// An ordered list of fields; order decides which rename wins on collision.
#[derive(Debug)]
pub struct Fields {
    fields: Vec<Field>,
}

impl View for Fields {
    type V = Seq<FieldV>;

    closed spec fn view(&self) -> Seq<FieldV> {
        self.fields.deep_view()
    }
}

impl Default for Fields {
    fn default() -> (r: Self)
        ensures
            r@ == Seq::<FieldV>::empty(),
    {
        Fields::empty()
    }
}

impl Fields {
    /// An empty field list.
    pub fn empty() -> (r: Self)
        ensures
            r@ == Seq::<FieldV>::empty(),
    {
        let r = Fields { fields: Vec::new() };
        proof {
            assert(r@ =~= Seq::<FieldV>::empty());
        }
        r
    }

    /// A list of exactly one field.
    pub fn one(field: Field) -> (r: Self)
        ensures
            r@ == seq![field@],
    {
        let mut fields = Vec::new();
        fields.push(field);
        let r = Fields { fields };
        proof {
            assert(r@ =~= seq![field@]);
        }
        r
    }

    /// A list of the given fields, in order.
    pub fn new(fields: Vec<Field>) -> (r: Self)
        ensures
            r@ == fields.deep_view(),
    {
        Fields { fields }
    }

    pub fn len(&self) -> (r: usize)
        ensures
            r == self@.len(),
    {
        self.fields.len()
    }

    pub fn get(&self, i: usize) -> (r: &Field)
        requires
            i < self@.len(),
        ensures
            r@ == self@[i as int],
    {
        &self.fields[i]
    }
}

/// True of the characters a field specification may be padded with.
pub open spec fn is_space(c: char) -> bool {
    c == ' ' || c == '\t'
}

/// `s` without its leading padding.
pub open spec fn drop_leading_spaces(s: Seq<char>) -> Seq<char>
    decreases s.len(),
{
    if s.len() > 0 && is_space(s[0]) {
        drop_leading_spaces(s.drop_first())
    } else {
        s
    }
}

/// `s` without its trailing padding.
pub open spec fn drop_trailing_spaces(s: Seq<char>) -> Seq<char>
    decreases s.len(),
{
    if s.len() > 0 && is_space(s.last()) {
        drop_trailing_spaces(s.drop_last())
    } else {
        s
    }
}

/// `s` without leading and trailing padding.
pub open spec fn trimmed(s: Seq<char>) -> Seq<char> {
    drop_trailing_spaces(drop_leading_spaces(s))
}

/// The position of the first `c` in `s`, or -1.
pub open spec fn find_char(s: Seq<char>, c: char) -> int
    decreases s.len(),
{
    if s.len() == 0 {
        -1
    } else if s[0] == c {
        0
    } else {
        let r = find_char(s.drop_first(), c);
        if r < 0 {
            -1
        } else {
            r + 1
        }
    }
}

/// How a field specification string reads: `input` or `input, target`, each
/// side trimmed of padding; an empty input name is refused, an empty target
/// means no rename.
pub open spec fn parse_field_spec(s: Seq<char>) -> Option<FieldV> {
    let c = find_char(s, ',');
    let name = if c < 0 {
        trimmed(s)
    } else {
        trimmed(s.take(c))
    };
    if name.len() == 0 {
        None
    } else {
        let target = if c < 0 {
            None
        } else {
            let t = trimmed(s.skip(c + 1));
            if t.len() == 0 {
                None
            } else {
                Some(t)
            }
        };
        Some(FieldV { input: name, target })
    }
}

proof fn lemma_find_char_at(s: Seq<char>, c: char, i: int)
    requires
        0 <= i < s.len(),
        s[i] == c,
        forall|j: int| 0 <= j < i ==> s[j] != c,
    ensures
        find_char(s, c) == i,
    decreases i,
{
    if i > 0 {
        lemma_find_char_at(s.drop_first(), c, i - 1);
    }
}

proof fn lemma_find_char_none(s: Seq<char>, c: char)
    requires
        forall|j: int| 0 <= j < s.len() ==> s[j] != c,
    ensures
        find_char(s, c) == -1,
    decreases s.len(),
{
    if s.len() > 0 {
        lemma_find_char_none(s.drop_first(), c);
    }
}

proof fn lemma_drop_leading(s: Seq<char>, a: int)
    requires
        0 <= a <= s.len(),
        forall|j: int| 0 <= j < a ==> is_space(#[trigger] s[j]),
        a < s.len() ==> !is_space(s[a]),
    ensures
        drop_leading_spaces(s) == s.skip(a),
    decreases a,
{
    if a == 0 {
        assert(s.skip(0) =~= s);
    } else {
        lemma_drop_leading(s.drop_first(), a - 1);
        assert(s.drop_first().skip(a - 1) =~= s.skip(a));
    }
}

proof fn lemma_drop_trailing(s: Seq<char>, b: int)
    requires
        0 <= b <= s.len(),
        forall|j: int| b <= j < s.len() ==> is_space(#[trigger] s[j]),
        b > 0 ==> !is_space(s[b - 1]),
    ensures
        drop_trailing_spaces(s) == s.take(b),
    decreases s.len(),
{
    if s.len() == 0 {
        assert(s.take(0) =~= s);
    } else if b == s.len() {
        assert(!is_space(s.last()));
        assert(s.take(b) =~= s);
    } else {
        lemma_drop_trailing(s.drop_last(), b);
        assert(s.drop_last().take(b) =~= s.take(b));
    }
}

/// Tests whether `c` is padding.
fn is_space_char(c: char) -> (r: bool)
    ensures
        r == is_space(c),
{
    c == ' ' || c == '\t'
}

/// The position of the first `c` in `s`, if any.
fn find_char_in(s: &str, c: char) -> (r: Option<usize>)
    ensures
        match r {
            Some(i) => find_char(s@, c) == i && i < s@.len(),
            None => find_char(s@, c) == -1,
        },
{
    let n = s.unicode_len();
    let mut i: usize = 0;
    while i < n
        invariant
            n == s@.len(),
            0 <= i <= n,
            forall|j: int| 0 <= j < i ==> s@[j] != c,
        decreases n - i,
    {
        if s.get_char(i) == c {
            proof {
                lemma_find_char_at(s@, c, i as int);
            }
            return Some(i);
        }
        i += 1;
    }
    proof {
        lemma_find_char_none(s@, c);
    }
    None
}

/// `s` with leading and trailing padding removed, as an owned string.
fn trim_str(s: &str) -> (r: String)
    ensures
        r@ == trimmed(s@),
{
    let n = s.unicode_len();
    let mut a: usize = 0;
    while a < n && is_space_char(s.get_char(a))
        invariant
            n == s@.len(),
            0 <= a <= n,
            forall|j: int| 0 <= j < a ==> is_space(#[trigger] s@[j]),
        decreases n - a,
    {
        a += 1;
    }
    let mut b: usize = n;
    while b > a && is_space_char(s.get_char(b - 1))
        invariant
            n == s@.len(),
            a <= b <= n,
            forall|j: int| b <= j < n ==> is_space(#[trigger] s@[j]),
        decreases b,
    {
        b -= 1;
    }
    proof {
        lemma_drop_leading(s@, a as int);
        let t = s@.skip(a as int);
        lemma_drop_trailing(t, b - a);
        assert(t.take(b - a) =~= s@.subrange(a as int, b as int));
    }
    s.substring_char(a, b).to_owned()
}

/// Reads a field specification: `input` alone, or `input, target` where the
/// part after the first comma renames the field; both sides are trimmed and
/// an empty target means no rename.
pub fn parse_field(s: &str) -> (r: Result<Field, Error>)
    ensures
        match parse_field_spec(s@) {
            Some(fv) => r matches Ok(f) && f@ == fv,
            None => r == Err::<Field, Error>(Error::EmptyField),
        },
{
    let n = s.unicode_len();
    let (name, target) = match find_char_in(s, ',') {
        Some(ci) => {
            let name = trim_str(s.substring_char(0, ci));
            let t = trim_str(s.substring_char(ci + 1, n));
            proof {
                assert(s@.subrange(0, ci as int) =~= s@.take(ci as int));
                assert(s@.subrange(ci + 1, n as int) =~= s@.skip(ci + 1));
            }
            if t.as_str().is_empty() {
                (name, None)
            } else {
                (name, Some(t))
            }
        },
        None => (trim_str(s), None),
    };
    if name.as_str().is_empty() {
        Err(Error::EmptyField)
    } else {
        Ok(Field { input_name: name, output_name: target })
    }
}

} // verus!
