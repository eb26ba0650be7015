use convert_case::Case;
use vstd::prelude::*;

verus! {

/// The closed set of naming conventions a variant identifier can be rendered in.
///
/// Construction from a free-form token goes through [`CaseStyle::from_name`],
/// which recognises exactly twelve tokens and nothing else.
#[derive(Clone, Copy, Debug, PartialEq, Eq, Structural)]
pub enum CaseStyle {
    Upper,
    Lower,
    Title,
    Camel,
    UpperCamel,
    Snake,
    UpperSnake,
    Kebab,
    UpperKebab,
    Train,
    Flat,
    UpperFlat,
}

/// What `convert_case` renders a string as, in the convention numbered `style`.
/// The result depends on the style and the input characters alone.
pub uninterp spec fn cased(style: int, s: Seq<char>) -> Seq<char>;

impl CaseStyle {
    /// A distinct number for each style, used to index [`cased`].
    pub open spec fn style_index(self) -> int {
        match self {
            CaseStyle::Upper => 0,
            CaseStyle::Lower => 1,
            CaseStyle::Title => 2,
            CaseStyle::Camel => 3,
            CaseStyle::UpperCamel => 4,
            CaseStyle::Snake => 5,
            CaseStyle::UpperSnake => 6,
            CaseStyle::Kebab => 7,
            CaseStyle::UpperKebab => 8,
            CaseStyle::Train => 9,
            CaseStyle::Flat => 10,
            CaseStyle::UpperFlat => 11,
        }
    }

    /// The exact configuration token that selects each style.
    pub open spec fn style_token(self) -> Seq<char> {
        match self {
            CaseStyle::Upper => "UPPER CASE"@,
            CaseStyle::Lower => "lower case"@,
            CaseStyle::Title => "Title Case"@,
            CaseStyle::Camel => "camelCase"@,
            CaseStyle::UpperCamel => "UpperCamelCase"@,
            CaseStyle::Snake => "snake_case"@,
            CaseStyle::UpperSnake => "UPPER_SNAKE_CASE"@,
            CaseStyle::Kebab => "kebab-case"@,
            CaseStyle::UpperKebab => "UPPER-KEBAB-CASE"@,
            CaseStyle::Train => "Train-Case"@,
            CaseStyle::Flat => "flatcase"@,
            CaseStyle::UpperFlat => "UPPERFLATCASE"@,
        }
    }

    /// Recognise one of the twelve exact style tokens; anything else is refused.
    pub fn from_name(name: &str) -> (r: Option<CaseStyle>)
        ensures
            match r {
                Some(style) => style.style_token() == name@,
                None => forall|style: CaseStyle| style.style_token() != name@,
            },
    {
        let n = String::from_str(name);
        if n == String::from_str("UPPER CASE") {
            Some(CaseStyle::Upper)
        } else if n == String::from_str("lower case") {
            Some(CaseStyle::Lower)
        } else if n == String::from_str("Title Case") {
            Some(CaseStyle::Title)
        } else if n == String::from_str("camelCase") {
            Some(CaseStyle::Camel)
        } else if n == String::from_str("UpperCamelCase") {
            Some(CaseStyle::UpperCamel)
        } else if n == String::from_str("snake_case") {
            Some(CaseStyle::Snake)
        } else if n == String::from_str("UPPER_SNAKE_CASE") {
            Some(CaseStyle::UpperSnake)
        } else if n == String::from_str("kebab-case") {
            Some(CaseStyle::Kebab)
        } else if n == String::from_str("UPPER-KEBAB-CASE") {
            Some(CaseStyle::UpperKebab)
        } else if n == String::from_str("Train-Case") {
            Some(CaseStyle::Train)
        } else if n == String::from_str("flatcase") {
            Some(CaseStyle::Flat)
        } else if n == String::from_str("UPPERFLATCASE") {
            Some(CaseStyle::UpperFlat)
        } else {
            None
        }
    }

    /// Render `s` in this naming convention.
    pub fn convert(&self, s: &str) -> (r: String)
        ensures
            r@ == cased(self.style_index(), s@),
    {
        to_case_str(self, s)
    }
}

/// Relies on convert_case's `Casing::to_case`: a pure rendering of the input
/// string in the chosen convention, depending on its arguments alone.
#[verifier::external_body]
fn to_case_str(style: &CaseStyle, s: &str) -> (r: String)
    ensures
        r@ == cased(style.style_index(), s@),
{
    let case = match style {
        CaseStyle::Upper => Case::Upper, CaseStyle::Lower => Case::Lower,
        CaseStyle::Title => Case::Title, CaseStyle::Camel => Case::Camel,
        CaseStyle::UpperCamel => Case::UpperCamel, CaseStyle::Snake => Case::Snake,
        CaseStyle::UpperSnake => Case::UpperSnake, CaseStyle::Kebab => Case::Kebab,
        CaseStyle::UpperKebab => Case::UpperKebab, CaseStyle::Train => Case::Train,
        CaseStyle::Flat => Case::Flat, CaseStyle::UpperFlat => Case::UpperFlat,
    };
    convert_case::Casing::to_case(&s, case)
}

/// Conversion is deterministic: two renderings of the same string in the same
/// style are the same text.
pub fn convert_deterministic(style: &CaseStyle, s: &str) -> (r: (String, String))
    ensures
        r.0@ == r.1@,
{
    (style.convert(s), style.convert(s))
}

} // verus!
