//! The public variables of a record's position in its local data.

use vstd::prelude::*;
use crate::field::Field;

verus! {

/// The position of a record and the root of the local data it belongs to.
#[derive(Clone, Copy, Debug, PartialEq, Eq, Structural)]
pub struct PublicVariables {
    pub record_position: u8,
    pub local_data_root: Field,
}

impl PublicVariables {
    pub fn new(record_position: u8, local_data_root: &Field) -> (variables: PublicVariables)
        ensures
            variables == (PublicVariables { record_position, local_data_root: *local_data_root }),
    {
        PublicVariables { record_position, local_data_root: *local_data_root }
    }

    /// The field elements that stand for the variables: the position, as the
    /// element whose value it is, followed by the root.
    pub open spec fn field_elements(self) -> Seq<Field> {
        seq![Field { lo: self.record_position as u128, hi: 0 }, self.local_data_root]
    }

    /// Packs the variables into field elements.
    pub fn to_field_elements(&self) -> (elements: Vec<Field>)
        ensures
            elements@ == self.field_elements(),
            elements@.len() == 2,
            elements@[0].value() == self.record_position,
    {
        let mut elements: Vec<Field> = Vec::new();
        elements.push(Field::from_u8(self.record_position));
        elements.push(self.local_data_root);
        elements
    }
}

impl Default for PublicVariables {
    /// The first position under the zero root.
    fn default() -> (variables: PublicVariables)
        ensures
            variables == (PublicVariables {
                record_position: 0,
                local_data_root: Field { lo: 0, hi: 0 },
            }),
    {
        PublicVariables { record_position: 0, local_data_root: Field::zero() }
    }
}

} // verus!
