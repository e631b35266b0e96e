//! The value tree and its mathematical model.
use vstd::prelude::*;

verus! {

broadcast use vstd::std_specs::vec::group_vec_axioms;

/// What a document means: the model that contracts speak of. A number is
/// the text that it was written with; an object keeps its members, names
/// and all, in the order given.
pub enum Json {
    Object(Seq<(Seq<char>, Json)>),
    Array(Seq<Json>),
    Str(Seq<char>),
    Number(Seq<char>),
    Null,
    True,
    False,
}

/// The kind of a value, as its content decides it.
#[derive(Debug, Clone, Copy, PartialEq, Eq, Structural)]
pub enum CargoValueType {
    CargoNoType,
    CargoObjectType,
    CargoArrayType,
    CargoNumberType,
    CargoStringType,
    CargoBasicType,
}

/// Unicode text, one `char` per code point; `length` counts them and
/// `capacity` is a growth hint.
#[derive(Debug)]
pub struct CargoString {
    capacity: usize,
    length: usize,
    content: Vec<char>,
}

impl View for CargoString {
    type V = Seq<char>;

    closed spec fn view(&self) -> Seq<char> {
        self.content@
    }
}

impl CargoString {
    pub closed spec fn wf(&self) -> bool {
        self.length == self.content.len()
    }

    /// An empty string that expects about `capacity` code points.
    pub fn new(capacity: usize) -> (r: Self)
        ensures
            r.wf(),
            r@ == Seq::<char>::empty(),
    {
        CargoString { capacity, length: 0, content: Vec::new() }
    }

    /// A string holding the code points of `content`.
    pub fn from_chars(content: Vec<char>) -> (r: Self)
        ensures
            r.wf(),
            r@ == content@,
    {
        let length: usize = content.len();
        CargoString { capacity: length, length, content }
    }

    /// Appends one code point.
    pub fn append_char(&mut self, c: char)
        requires
            old(self).wf(),
            old(self)@.len() < usize::MAX,
        ensures
            final(self).wf(),
            final(self)@ == old(self)@.push(c),
    {
        self.content.push(c);
        self.length = self.length + 1;
        if self.capacity < self.length {
            self.capacity = self.length;
        }
    }

    /// The number of code points.
    pub fn len(&self) -> (r: usize)
        requires
            self.wf(),
        ensures
            r == self@.len(),
    {
        self.length
    }

    /// The code points.
    pub fn chars(&self) -> (r: &Vec<char>)
        ensures
            r@ == self@,
    {
        &self.content
    }
}

/// A number, with the text that it was written in and, where that text is a
/// plain non-negative integer that fits, its value.
#[derive(Debug)]
pub struct CargoNumber {
    string_value: Option<CargoString>,
    int_value: Option<u64>,
}

impl View for CargoNumber {
    type V = Seq<char>;

    closed spec fn view(&self) -> Seq<char> {
        match self.string_value {
            Some(t) => t@,
            None => Seq::empty(),
        }
    }
}

/// The value of a run of decimal digits.
pub open spec fn digits_value(t: Seq<char>) -> nat
    decreases t.len(),
{
    if t.len() == 0 {
        0
    } else {
        10 * digits_value(t.drop_last()) + ((t.last() as u32 - '0' as u32) as nat)
    }
}

/// A non-empty run of decimal digits.
pub open spec fn all_digits(t: Seq<char>) -> bool {
    t.len() > 0 && forall|i: int| 0 <= i < t.len() ==> '0' <= #[trigger] t[i] && t[i] <= '9'
}

/// The integer that a number's text denotes, where it has no sign, fraction
/// or exponent and fits in a `u64`.
pub open spec fn int_of_text(t: Seq<char>) -> Option<u64> {
    if all_digits(t) && digits_value(t) <= u64::MAX {
        Some(digits_value(t) as u64)
    } else {
        None
    }
}

impl CargoNumber {
    /// A number written as `text`, with the integer value that text has.
    pub fn from_text(text: CargoString, int_value: Option<u64>) -> (r: Self)
        requires
            text.wf(),
            int_value == int_of_text(text@),
        ensures
            r.wf(),
            r@ == text@,
    {
        CargoNumber { string_value: Some(text), int_value }
    }

    pub closed spec fn wf(&self) -> bool {
        &&& self.string_value is Some
        &&& self.string_value->0.wf()
        &&& self.int_value == int_of_text(self@)
    }

    /// The integer value, where the text is a plain integer that fits.
    pub fn int_value(&self) -> (r: Option<u64>)
        requires
            self.wf(),
        ensures
            r == int_of_text(self@),
    {
        self.int_value
    }

    /// The text form.
    pub fn text(&self) -> (r: &CargoString)
        requires
            self.wf(),
        ensures
            r@ == self@,
            r.wf(),
    {
        self.string_value.as_ref().unwrap()
    }
}

/// The tokens `null`, `true` and `false`.
#[derive(Debug, Clone, Copy, PartialEq, Eq, Structural)]
pub enum CargoBasic {
    CargoNull,
    CargoTrue,
    CargoFalse,
}

/// The elements of an array, in order; they have no names.
#[derive(Debug)]
pub struct CargoArray {
    pub element_list: Vec<CargoValue>,
}

/// The members of an object, in the order read; each has a name. Repeated
/// names are all kept, in order: none replaces another.
#[derive(Debug)]
pub struct CargoObject {
    pub member_list: Vec<CargoValue>,
}

#[derive(Debug)]
pub enum CargoContent {
    Object(Box<CargoObject>),
    Array(Box<CargoArray>),
    String(CargoString),
    Number(CargoNumber),
    Basic(CargoBasic),
}

/// A value of the tree, with the name it has as a member of an object.
#[derive(Debug)]
pub struct CargoValue {
    pub name: Option<CargoString>,
    pub content: CargoContent,
}

/// The name of a member, empty where there is none.
pub open spec fn name_of(v: CargoValue) -> Seq<char> {
    match v.name {
        Some(n) => n@,
        None => Seq::empty(),
    }
}

impl CargoValue {
    /// The document that this value stands for.
    pub open spec fn json(self) -> Json
        decreases self,
    {
        match self.content {
            CargoContent::Object(o) => Json::Object(
                Seq::new(
                    o.member_list.len() as nat,
                    |i: int|
                        if 0 <= i < o.member_list.len() {
                            (name_of(o.member_list[i]), o.member_list[i].json())
                        } else {
                            (Seq::empty(), Json::Null)
                        },
                ),
            ),
            CargoContent::Array(a) => Json::Array(
                Seq::new(
                    a.element_list.len() as nat,
                    |i: int|
                        if 0 <= i < a.element_list.len() {
                            a.element_list[i].json()
                        } else {
                            Json::Null
                        },
                ),
            ),
            CargoContent::String(s) => Json::Str(s@),
            CargoContent::Number(n) => Json::Number(n@),
            CargoContent::Basic(CargoBasic::CargoNull) => Json::Null,
            CargoContent::Basic(CargoBasic::CargoTrue) => Json::True,
            CargoContent::Basic(CargoBasic::CargoFalse) => Json::False,
        }
    }

    /// Well-formed: strings and numbers keep their invariants, every member
    /// of an object has a name, and the same holds all the way down.
    pub open spec fn wf(self) -> bool
        decreases self,
    {
        &&& match self.name {
            Some(n) => n.wf(),
            None => true,
        }
        &&& match self.content {
            CargoContent::Object(o) => forall|i: int|
                0 <= i < o.member_list.len() ==> {
                    &&& (#[trigger] o.member_list[i]).name is Some
                    &&& o.member_list[i].wf()
                },
            CargoContent::Array(a) => forall|i: int|
                0 <= i < a.element_list.len() ==> (#[trigger] a.element_list[i]).wf(),
            CargoContent::String(s) => s.wf(),
            CargoContent::Number(n) => n.wf(),
            CargoContent::Basic(_) => true,
        }
    }
}

impl CargoValue {
    /// An empty value of the given type with the given name: an object or
    /// array with no members, an empty string, the number `0`, or `null`
    /// (for a basic value and for no type).
    pub fn new(_type: CargoValueType, name: String) -> (r: Self)
        ensures
            r.wf(),
            r.name matches Some(n) && n@ == name@,
            r.json() == match _type {
                CargoValueType::CargoObjectType => Json::Object(Seq::empty()),
                CargoValueType::CargoArrayType => Json::Array(Seq::empty()),
                CargoValueType::CargoStringType => Json::Str(Seq::empty()),
                CargoValueType::CargoNumberType => Json::Number(seq!['0']),
                _ => Json::Null,
            },
    {
        let content: CargoContent = match _type {
            CargoValueType::CargoObjectType => CargoContent::Object(
                Box::new(CargoObject { member_list: Vec::new() }),
            ),
            CargoValueType::CargoArrayType => CargoContent::Array(
                Box::new(CargoArray { element_list: Vec::new() }),
            ),
            CargoValueType::CargoStringType => CargoContent::String(CargoString::new(0)),
            CargoValueType::CargoNumberType => {
                let mut text: CargoString = CargoString::new(1);
                text.append_char('0');
                proof {
                    assert(text@ =~= seq!['0']);
                    assert(text@.drop_last() =~= Seq::<char>::empty());
                    reveal_with_fuel(digits_value, 2);
                }
                CargoContent::Number(CargoNumber::from_text(text, Some(0)))
            },
            _ => CargoContent::Basic(CargoBasic::CargoNull),
        };
        let r: CargoValue = CargoValue { name: Some(CargoString::from_chars(chars_of_str(name.as_str()))), content };
        proof {
            if r.content is Object {
                assert(r.json()->Object_0 =~= Seq::<(Seq<char>, Json)>::empty());
            }
            if r.content is Array {
                assert(r.json()->Array_0 =~= Seq::<Json>::empty());
            }
        }
        r
    }

    /// The type of this value, as its content decides it.
    pub fn value_type(&self) -> (r: CargoValueType)
        ensures
            r == match self.content {
                CargoContent::Object(_) => CargoValueType::CargoObjectType,
                CargoContent::Array(_) => CargoValueType::CargoArrayType,
                CargoContent::String(_) => CargoValueType::CargoStringType,
                CargoContent::Number(_) => CargoValueType::CargoNumberType,
                CargoContent::Basic(_) => CargoValueType::CargoBasicType,
            },
    {
        match &self.content {
            CargoContent::Object(_) => CargoValueType::CargoObjectType,
            CargoContent::Array(_) => CargoValueType::CargoArrayType,
            CargoContent::String(_) => CargoValueType::CargoStringType,
            CargoContent::Number(_) => CargoValueType::CargoNumberType,
            CargoContent::Basic(_) => CargoValueType::CargoBasicType,
        }
    }
}

fn chars_of_str(a: &str) -> (r: Vec<char>)
    ensures
        r@ == a@,
{
    let n: usize = a.unicode_len();
    let mut r: Vec<char> = Vec::new();
    let mut i: usize = 0;
    while i < n
        invariant
            n == a@.len(),
            i <= n,
            r@ == a@.take(i as int),
        decreases n - i,
    {
        r.push(a.get_char(i));
        i = i + 1;
        assert(r@ =~= a@.take(i as int));
    }
    assert(a@.take(n as int) =~= a@);
    r
}

} // verus!
