//! The domain record a successful catalog lookup produces.
use vstd::prelude::*;

verus! {

/// The largest unit price the library represents, in hundredths of the
/// currency unit. A price string whose value would exceed this is treated as
/// unparseable and degrades to zero, as any other malformed price does.
pub const MAX_PRICE_CENTS: u64 = 999_999_999_999;

/// One product as the catalog describes it.
///
/// `identifier` is the canonical decimal form of the barcode and is the sole
/// equality and merge key; `unit_price_cents` is the unit price in hundredths
/// of the currency unit (a malformed price degrades to zero rather than
/// failing the lookup); `image_reference` is the first entry of the payload's
/// image list, absent if that list is empty.
#[derive(Debug)]
pub struct ProductRecord {
    pub identifier: String,
    pub name: String,
    pub unit_price_cents: u64,
    pub image_reference: Option<String>,
}

/// The mathematical content of a `ProductRecord`: its strings as character
/// sequences.
pub ghost struct RecordModel {
    pub identifier: Seq<char>,
    pub name: Seq<char>,
    pub unit_price_cents: u64,
    pub image_reference: Option<Seq<char>>,
}

impl View for ProductRecord {
    type V = RecordModel;

    open spec fn view(&self) -> RecordModel {
        RecordModel {
            identifier: self.identifier@,
            name: self.name@,
            unit_price_cents: self.unit_price_cents,
            image_reference: match self.image_reference {
                Some(s) => Some(s@),
                None => None,
            },
        }
    }
}

impl ProductRecord {
    /// A record never carries a price beyond the representable maximum.
    pub open spec fn wf(&self) -> bool {
        self.unit_price_cents <= MAX_PRICE_CENTS
    }
}

impl Clone for ProductRecord {
    /// A clone is equal to the original, field for field.
    fn clone(&self) -> (r: Self)
        ensures
            r == *self,
    {
        ProductRecord {
            identifier: self.identifier.clone(),
            name: self.name.clone(),
            unit_price_cents: self.unit_price_cents,
            image_reference: match &self.image_reference {
                Some(s) => Some(s.clone()),
                None => None,
            },
        }
    }
}

} // verus!
