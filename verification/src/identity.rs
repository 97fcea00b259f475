//! What an agent says about itself.
use vstd::prelude::*;

use crate::text::texts;

verus! {

/// A capability card: what an agent does and how it is paid.
#[derive(Debug)]
pub struct CapabilityCard {
    pub name: String,
    pub description: String,
    pub capabilities: Vec<String>,
    /// How the agent is paid, as it stands in the card's JSON.
    pub payment: Option<String>,
}

/// The contents of a [`CapabilityCard`].
pub struct CapabilityCardView {
    pub name: Seq<char>,
    pub description: Seq<char>,
    pub capabilities: Seq<Seq<char>>,
    pub payment: Option<Seq<char>>,
}

impl View for CapabilityCard {
    type V = CapabilityCardView;

    open spec fn view(&self) -> CapabilityCardView {
        CapabilityCardView {
            name: self.name@,
            description: self.description@,
            capabilities: texts(self.capabilities@),
            payment: match self.payment {
                Some(payment) => Some(payment@),
                None => None,
            },
        }
    }
}

impl CapabilityCard {
    /// A card without payment info.
    pub fn new(name: &str, description: &str, capabilities: Vec<String>) -> (card: Self)
        ensures
            card@ == (CapabilityCardView {
                name: name@,
                description: description@,
                capabilities: texts(capabilities@),
                payment: None,
            }),
    {
        CapabilityCard {
            name: name.to_owned(),
            description: description.to_owned(),
            capabilities,
            payment: None,
        }
    }
}

/// A copy of a list of strings.
pub(crate) fn copy_list(list: &Vec<String>) -> (copy: Vec<String>)
    ensures
        texts(copy@) == texts(list@),
{
    let mut copy: Vec<String> = Vec::new();
    for i in 0..list.len()
        invariant
            copy@ == list@.take(i as int),
    {
        copy.push(list[i].clone());
    }
    assert(list@.take(list@.len() as int) =~= list@);
    copy
}

impl Clone for CapabilityCard {
    fn clone(&self) -> (copy: Self)
        ensures
            copy@ == self@,
    {
        CapabilityCard {
            name: self.name.clone(),
            description: self.description.clone(),
            capabilities: copy_list(&self.capabilities),
            payment: match &self.payment {
                Some(payment) => Some(payment.clone()),
                None => None,
            },
        }
    }
}

} // verus!
