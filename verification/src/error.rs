use vstd::prelude::*;
use vstd::string::*;

verus! {

/// A numeric component of a colour, named in an error when it is out of range.
#[derive(Clone, Copy, Debug, PartialEq, Eq, Structural)]
pub enum Component {
    Red,
    Green,
    Blue,
    Alpha,
    Hue,
    Saturation,
    Lightness,
    Value,
    Cyan,
    Magenta,
    Yellow,
    Key,
}

/// Why a conversion refused its input.
#[derive(Clone, Copy, Debug, PartialEq, Eq, Structural)]
pub enum ColorError {
    /// A numeric component lies outside its closed interval.
    InvalidInput(Component),
    /// A hex string has the wrong length or holds a character that is no hex digit.
    InvalidFormat,
}

impl Component {
    /// The component's name in lower case.
    pub open spec fn name_text(self) -> Seq<char> {
        match self {
            Component::Red => "red"@,
            Component::Green => "green"@,
            Component::Blue => "blue"@,
            Component::Alpha => "alpha"@,
            Component::Hue => "hue"@,
            Component::Saturation => "saturation"@,
            Component::Lightness => "lightness"@,
            Component::Value => "value"@,
            Component::Cyan => "cyan"@,
            Component::Magenta => "magenta"@,
            Component::Yellow => "yellow"@,
            Component::Key => "key"@,
        }
    }

    /// The component's name in lower case.
    pub fn name(self) -> (text: &'static str)
        ensures
            text@ == self.name_text(),
    {
        match self {
            Component::Red => "red",
            Component::Green => "green",
            Component::Blue => "blue",
            Component::Alpha => "alpha",
            Component::Hue => "hue",
            Component::Saturation => "saturation",
            Component::Lightness => "lightness",
            Component::Value => "value",
            Component::Cyan => "cyan",
            Component::Magenta => "magenta",
            Component::Yellow => "yellow",
            Component::Key => "key",
        }
    }
}

impl ColorError {
    /// The text of the error: for a component out of range it names the component.
    pub open spec fn message_text(self) -> Seq<char> {
        match self {
            ColorError::InvalidInput(c) => "invalid "@ + c.name_text() + " value"@,
            ColorError::InvalidFormat => "invalid hex"@,
        }
    }

    /// The text of the error: for a component out of range it names the component.
    pub fn message(&self) -> (text: String)
        ensures
            text@ == self.message_text(),
    {
        match self {
            ColorError::InvalidInput(c) => {
                let mut text = String::from_str("invalid ");
                text.append(c.name());
                text.append(" value");
                text
            },
            ColorError::InvalidFormat => String::from_str("invalid hex"),
        }
    }
}

} // verus!
