//! Support for the dynamic values that scripts pass in: the error type of
//! the dynamic helpers, and the reading of a "string or list of strings"
//! argument.

use vstd::prelude::*;
use vstd::string::*;
use crate::error::Error;

verus! {

/// Errors of the dynamic value helpers.
#[derive(Debug)]
pub enum DynamicSupportError {
    Custom(String),
    CastFailNotAMap,
    PropertyMissing { name: String, cause: String },
}

impl DynamicSupportError {
    /// A custom error with the given message.
    pub fn custom(val: &str) -> (res: Self)
        ensures
            res matches DynamicSupportError::Custom(s) && s@ == val@,
    {
        DynamicSupportError::Custom(String::from_str(val))
    }
}

impl From<String> for DynamicSupportError {
    fn from(val: String) -> (res: Self) {
        DynamicSupportError::Custom(val)
    }
}

impl vstd::std_specs::convert::FromSpecImpl<String> for DynamicSupportError {
    open spec fn obeys_from_spec() -> bool {
        true
    }

    open spec fn from_spec(val: String) -> Self {
        DynamicSupportError::Custom(val)
    }
}

/// A script argument that may be a string or a list, as the helpers see it:
/// a single string; a list whose items are kept as `Some` when they are
/// strings; or anything else.
#[derive(Debug)]
pub enum StringsArg {
    Single(String),
    List(Vec<Option<String>>),
    Other,
}

/// The strings of the list, in order, skipping the items that are not strings.
pub open spec fn present_strings(items: Seq<Option<String>>) -> Seq<String>
    decreases items.len(),
{
    if items.len() == 0 {
        Seq::empty()
    } else {
        match items.last() {
            Some(s) => present_strings(items.drop_last()).push(s),
            None => present_strings(items.drop_last()),
        }
    }
}

/// The strings of a "string or array of strings" value (Rhai): a single
/// string gives itself; an array gives its string items (the others are
/// skipped); anything else is an error.
pub fn dynamic_into_strings(dynamic: StringsArg, err_suffix: &str) -> (res: Result<Vec<String>, Error>)
    ensures
        match dynamic {
            StringsArg::Single(s) => res matches Ok(v) && v@ == seq![s],
            StringsArg::List(items) => res matches Ok(v) && v@ == present_strings(items@),
            StringsArg::Other => res matches Err(Error::Custom(msg)) && msg@ == "'"@ + err_suffix@
                + "' is not of type String or Array Of String"@,
        },
{
    match dynamic {
        StringsArg::Single(s) => {
            let mut v: Vec<String> = Vec::new();
            v.push(s);
            Ok(v)
        },
        StringsArg::List(items) => {
            let mut v: Vec<String> = Vec::new();
            let mut items = items;
            let ghost all = items@;
            let mut i: usize = 0;
            assert(all.take(0) =~= Seq::<Option<String>>::empty());
            while i < items.len()
                invariant
                    i <= items.len(),
                    items@ == all,
                    v@ == present_strings(all.take(i as int)),
                decreases items.len() - i,
            {
                assert(all.take(i + 1).drop_last() =~= all.take(i as int));
                match &items[i] {
                    Some(s) => {
                        v.push(s.clone());
                    },
                    None => {},
                }
                i = i + 1;
            }
            assert(all.take(items.len() as int) =~= all);
            Ok(v)
        },
        StringsArg::Other => {
            let mut msg = String::from_str("'");
            msg.append(err_suffix);
            msg.append("' is not of type String or Array Of String");
            Err(Error::Custom(msg))
        },
    }
}

/// Index of the first key equal to `name`, or `-1` when there is none.
pub open spec fn key_index(keys: Seq<String>, name: Seq<char>) -> int
    decreases keys.len(),
{
    if keys.len() == 0 {
        -1
    } else if keys[0]@ == name {
        0
    } else {
        let r = key_index(keys.drop_first(), name);
        if r < 0 {
            -1
        } else {
            r + 1
        }
    }
}

proof fn lemma_key_index_at(keys: Seq<String>, name: Seq<char>, i: int)
    requires
        0 <= i <= keys.len(),
        forall|j: int| 0 <= j < i ==> (#[trigger] keys[j])@ != name,
        i < keys.len() ==> keys[i]@ == name,
    ensures
        key_index(keys, name) == (if i == keys.len() { -1 } else { i }),
    decreases i,
{
    if i > 0 {
        assert forall|j: int| 0 <= j < i - 1 implies (#[trigger] keys.drop_first()[j])@ != name by {
            assert(keys.drop_first()[j] == keys[j + 1]);
        }
        lemma_key_index_at(keys.drop_first(), name, i - 1);
    }
}

/// Where the property `name` stands among the keys of a script map: the
/// index of its entry, or `PropertyMissing` (cause "missing") when the map
/// has no such key.
pub fn property_index(keys: &Vec<String>, name: &str) -> (res: Result<usize, DynamicSupportError>)
    ensures
        match res {
            Ok(i) => key_index(keys@, name@) == i,
            Err(e) => key_index(keys@, name@) == -1 && (e matches DynamicSupportError::PropertyMissing {
                name: n,
                cause: c,
            } && n@ == name@ && c@ == "missing"@),
        },
{
    let mut i: usize = 0;
    while i < keys.len()
        invariant
            i <= keys.len(),
            forall|j: int| 0 <= j < i ==> (#[trigger] keys@[j])@ != name@,
        decreases keys.len() - i,
    {
        if crate::json::str_equal(keys[i].as_str(), name) {
            proof {
                lemma_key_index_at(keys@, name@, i as int);
            }
            return Ok(i);
        }
        i = i + 1;
    }
    proof {
        lemma_key_index_at(keys@, name@, i as int);
    }
    Err(
        DynamicSupportError::PropertyMissing {
            name: String::from_str(name),
            cause: String::from_str("missing"),
        },
    )
}

/// A new section given to `text::replace_markers`, as the helper sees it: a
/// string; a map, with its `content` when that is a string; or anything else.
#[derive(Debug)]
pub enum SectionItem {
    Text(String),
    Object { content: Option<String> },
    Other,
}

/// The string a section item stands for, if any.
pub open spec fn section_text(item: SectionItem) -> Option<String> {
    match item {
        SectionItem::Text(s) => Some(s),
        SectionItem::Object { content } => content,
        SectionItem::Other => None,
    }
}

/// The strings of the new sections, in order: a string item gives itself,
/// a map its string `content`; any other item is an error.
pub fn new_section_strings(items: Vec<SectionItem>) -> (res: Result<Vec<String>, Error>)
    ensures
        (forall|i: int| 0 <= i < items@.len() ==> section_text(#[trigger] items@[i]) is Some) ==> (res
            matches Ok(v) && v@.len() == items@.len() && forall|i: int|
            0 <= i < items@.len() ==> section_text(#[trigger] items@[i]) == Some(v@[i])),
        !(forall|i: int| 0 <= i < items@.len() ==> section_text(#[trigger] items@[i]) is Some) ==> (res
            matches Err(Error::Custom(m)) && m@
            == "A new section item is not of type string or does not contain a .content of type string"@),
{
    let mut v: Vec<String> = Vec::new();
    let mut i: usize = 0;
    while i < items.len()
        invariant
            i <= items.len(),
            v@.len() == i,
            forall|k: int| 0 <= k < i ==> section_text(#[trigger] items@[k]) == Some(v@[k]),
        decreases items.len() - i,
    {
        let s = match &items[i] {
            SectionItem::Text(s) => s.clone(),
            SectionItem::Object { content: Some(c) } => c.clone(),
            _ => {
                assert(section_text(items@[i as int]) is None);
                return Err(
                    Error::Custom(
                        String::from_str(
                            "A new section item is not of type string or does not contain a .content of type string",
                        ),
                    ),
                );
            },
        };
        v.push(s);
        i = i + 1;
    }
    Ok(v)
}

} // verus!
