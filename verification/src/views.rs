//! Parameters of the presentational views that the hosting application
//! drives: the card-detail page and the thumbnails of a card grid.

use vstd::prelude::*;
use vstd::string::StringExecFns;

verus! {

/// What the card-detail view needs: which card, and which artwork.
#[derive(Debug, PartialEq)]
pub struct CardDetailsProps {
    pub card_id: String,
    pub img_index: usize,
}

/// What one thumbnail in a card grid needs.
#[derive(Debug, PartialEq)]
pub struct CardThumbnailProps {
    pub id: String,
    pub image: String,
    pub art: usize,
    pub authors: Vec<String>,
}

impl CardThumbnailProps {
    /// The label naming the artwork's authors: a placeholder when none
    /// are given, a single author unchanged, and the first of several
    /// marked as one of many.
    pub fn author_label(&self) -> (r: String)
        ensures
            self.authors@.len() == 0 ==> r@ == "Unspecified author"@,
            self.authors@.len() == 1 ==> r@ == self.authors@[0]@,
            self.authors@.len() > 1 ==> r@ == self.authors@[0]@ + " et al"@,
    {
        if self.authors.len() == 0 {
            "Unspecified author".to_owned()
        } else if self.authors.len() == 1 {
            self.authors[0].clone()
        } else {
            self.authors[0].clone().concat(" et al")
        }
    }
}

} // verus!
