use vstd::prelude::*;

verus! {

/// Why the SD card could not be used: no card, a card error `C`, or a filesystem error `F`.
#[derive(Debug)]
pub enum SdStorageError<C, F> {
    CardNotFound,
    Card(C),
    Filesystem(F),
}

impl<C, F> SdStorageError<C, F> {
    /// A card error, of which the caller says whether it is the card-not-found error;
    /// a missing card is reported as `CardNotFound`.
    pub fn from_card(error: C, card_not_found: bool) -> (r: Self)
        ensures
            card_not_found ==> r is CardNotFound,
            !card_not_found ==> r == SdStorageError::<C, F>::Card(error),
    {
        if card_not_found {
            SdStorageError::CardNotFound
        } else {
            SdStorageError::Card(error)
        }
    }

    /// A filesystem error, of which the caller says whether it is a device error that
    /// reports a missing card; a missing card is reported as `CardNotFound`.
    pub fn from_filesystem(error: F, card_not_found: bool) -> (r: Self)
        ensures
            card_not_found ==> r is CardNotFound,
            !card_not_found ==> r == SdStorageError::<C, F>::Filesystem(error),
    {
        if card_not_found {
            SdStorageError::CardNotFound
        } else {
            SdStorageError::Filesystem(error)
        }
    }
}

} // verus!
