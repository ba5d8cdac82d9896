use vstd::prelude::*;

verus! {

/// The class of a reference vector.
#[derive(Clone, Copy, Debug, PartialEq, Eq, Structural)]
pub enum Label {
    Legit,
    Fraud,
}

/// The label byte stored for `label`: 1 for fraud, 0 for legit.
pub open spec fn label_byte(label: Label) -> u8 {
    match label {
        Label::Legit => 0,
        Label::Fraud => 1,
    }
}

/// The label a stored byte stands for: any nonzero byte marks fraud.
pub open spec fn byte_label(b: u8) -> Label {
    if b != 0 {
        Label::Fraud
    } else {
        Label::Legit
    }
}

impl Label {
    /// Whether this label marks fraud.
    pub fn is_fraud(&self) -> (r: bool)
        ensures
            r == (*self == Label::Fraud),
    {
        match self {
            Label::Legit => false,
            Label::Fraud => true,
        }
    }

    /// The byte a store file holds for this label.
    pub fn to_byte(&self) -> (b: u8)
        ensures
            b == label_byte(*self),
    {
        match self {
            Label::Legit => 0,
            Label::Fraud => 1,
        }
    }

    /// The label that a stored byte stands for.
    pub fn from_byte(b: u8) -> (label: Label)
        ensures
            label == byte_label(b),
    {
        if b != 0 {
            Label::Fraud
        } else {
            Label::Legit
        }
    }
}

/// A store file holds 1 for a fraud row and 0 for a legit one, and reads any nonzero
/// byte as fraud and 0 as legit.
pub proof fn law_label_bytes(b: u8)
    ensures
        label_byte(Label::Fraud) == 1,
        label_byte(Label::Legit) == 0,
        (byte_label(b) == Label::Fraud) <==> b != 0,
        (byte_label(b) == Label::Legit) <==> b == 0,
{
}

/// Reading back the byte written for a label gives the label.
pub proof fn law_label_byte_roundtrip(label: Label)
    ensures
        byte_label(label_byte(label)) == label,
{
}

} // verus!
