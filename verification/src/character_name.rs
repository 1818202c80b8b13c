use vstd::prelude::*;
use vstd::string::StringExecFns;

verus! {

/// How a character is called: just a label, a first and a last name,
/// or a married name that also records the last name held at birth.
#[derive(Clone, Debug, PartialEq, Eq, Hash)]
pub enum CharacterName {
    Simple(String),
    Standard { first: String, last: String },
    Married { first: String, last: String, birth: String },
}

/// The mathematical shape of a character name: the same three branches
/// over character sequences.
pub enum NameView {
    Simple(Seq<char>),
    Standard { first: Seq<char>, last: Seq<char> },
    Married { first: Seq<char>, last: Seq<char>, birth: Seq<char> },
}

impl View for CharacterName {
    type V = NameView;

    open spec fn view(&self) -> NameView {
        match self {
            CharacterName::Simple(name) => NameView::Simple(name@),
            CharacterName::Standard { first, last } => NameView::Standard {
                first: first@,
                last: last@,
            },
            CharacterName::Married { first, last, birth } => NameView::Married {
                first: first@,
                last: last@,
                birth: birth@,
            },
        }
    }
}

impl NameView {
    /// The last name, if the name carries one.
    pub open spec fn spec_last(self) -> Option<Seq<char>> {
        match self {
            NameView::Simple(..) => None,
            NameView::Standard { last, .. } => Some(last),
            NameView::Married { last, .. } => Some(last),
        }
    }

    /// Taking a new last name keeps a `Standard` shape when the new name
    /// equals the birth name, and otherwise records both.
    pub open spec fn spec_check_last(first: Seq<char>, last: Seq<char>, birth: Seq<char>) -> NameView {
        if last == birth {
            NameView::Standard { first, last }
        } else {
            NameView::Married { first, last, birth }
        }
    }

    /// The name that marrying into `new_last` produces: a simple label is kept;
    /// otherwise the currently recorded birth name is carried over.
    pub open spec fn spec_marry(self, new_last: Seq<char>) -> NameView {
        match self {
            NameView::Simple(name) => NameView::Simple(name),
            NameView::Standard { first, last } => Self::spec_check_last(first, new_last, last),
            NameView::Married { first, birth, .. } => Self::spec_check_last(first, new_last, birth),
        }
    }
}

impl CharacterName {
    pub fn simple(name: &str) -> (r: Self)
        ensures
            r@ == NameView::Simple(name@),
    {
        CharacterName::Simple(name.to_owned())
    }

    pub fn standard(first: &str, last: &str) -> (r: Self)
        ensures
            r@ == (NameView::Standard { first: first@, last: last@ }),
    {
        CharacterName::Standard { first: first.to_owned(), last: last.to_owned() }
    }

    pub fn married(first: &str, last: &str, birth: &str) -> (r: Self)
        ensures
            r@ == (NameView::Married { first: first@, last: last@, birth: birth@ }),
    {
        CharacterName::Married {
            first: first.to_owned(),
            last: last.to_owned(),
            birth: birth.to_owned(),
        }
    }

    pub fn get_last(&self) -> (r: Option<&str>)
        ensures
            match r {
                Some(s) => self@.spec_last() == Some(s@),
                None => self@.spec_last() is None,
            },
    {
        match self {
            CharacterName::Simple(..) => None,
            CharacterName::Standard { last, .. } => Some(last.as_str()),
            CharacterName::Married { last, .. } => Some(last.as_str()),
        }
    }

    /// The name after marrying into the last name `new_last`.
    pub fn marry(&self, new_last: &str) -> (r: Self)
        ensures
            r@ == self@.spec_marry(new_last@),
    {
        match self {
            CharacterName::Simple(name) => CharacterName::Simple(name.clone()),
            CharacterName::Standard { first, last } => Self::check_came_last_name(
                first,
                String::from_str(new_last),
                last,
            ),
            CharacterName::Married { first, birth, .. } => Self::check_came_last_name(
                first,
                String::from_str(new_last),
                birth,
            ),
        }
    }

    fn check_came_last_name(first: &str, last: String, birth: &str) -> (r: Self)
        ensures
            r@ == NameView::spec_check_last(first@, last@, birth@),
    {
        let birth_owned = birth.to_owned();
        if last == birth_owned {
            CharacterName::Standard { first: first.to_owned(), last }
        } else {
            CharacterName::Married { first: first.to_owned(), last, birth: birth_owned }
        }
    }

    /// The name as displayed: last name after the first name,
    /// with the birth name appended for a married name.
    pub fn to_display_string(&self) -> (r: String)
        ensures
            r@ == match self@ {
                NameView::Simple(name) => name,
                NameView::Standard { first, last } => first + " "@ + last,
                NameView::Married { first, last, birth } => first + " "@ + last + " nee "@ + birth,
            },
    {
        match self {
            CharacterName::Simple(name) => name.clone(),
            CharacterName::Standard { first, last } => {
                let mut text = first.clone();
                text.append(" ");
                text.append(last.as_str());
                text
            },
            CharacterName::Married { first, last, birth } => {
                let mut text = first.clone();
                text.append(" ");
                text.append(last.as_str());
                text.append(" nee ");
                text.append(birth.as_str());
                text
            },
        }
    }

    /// The name with the last name put first, for sorted listings.
    pub fn sorted(&self) -> (r: String)
        ensures
            r@ == match self@ {
                NameView::Simple(name) => name,
                NameView::Standard { first, last } => last + ", "@ + first,
                NameView::Married { first, last, birth } => last + " nee "@ + birth + ", "@ + first,
            },
    {
        match self {
            CharacterName::Simple(name) => name.clone(),
            CharacterName::Standard { first, last } => {
                let mut text = last.clone();
                text.append(", ");
                text.append(first.as_str());
                text
            },
            CharacterName::Married { first, last, birth } => {
                let mut text = last.clone();
                text.append(" nee ");
                text.append(birth.as_str());
                text.append(", ");
                text.append(first.as_str());
                text
            },
        }
    }
}

} // verus!
