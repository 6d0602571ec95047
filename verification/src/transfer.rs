//! Decisions of the multi-provider file transfer: which download strategy a
//! name selects, and whether every provider ticket names the same content.

use vstd::prelude::*;

use crate::error::concat_str;

verus! {

/// How a download is spread over providers.
#[derive(Clone, Copy, Debug, PartialEq, Eq, Structural)]
pub enum DownloadStrategy {
    /// Split the content and fetch the parts from several providers in parallel.
    Split,
    /// Fetch from one provider at a time, falling back to the next.
    Sequential,
}

/// The message for a strategy name that is not known.
pub open spec fn unknown_strategy_text(name: Seq<char>) -> Seq<char> {
    "unknown strategy: "@ + name + " (use 'split' or 'sequential')"@
}

/// Select the download strategy named `name` (`split` or `sequential`).
pub fn select_strategy(name: &String) -> (r: Result<DownloadStrategy, String>)
    ensures
        name@ == "split"@ ==> r == Ok::<DownloadStrategy, String>(DownloadStrategy::Split),
        name@ == "sequential"@ ==> r == Ok::<DownloadStrategy, String>(DownloadStrategy::Sequential),
        name@ != "split"@ && name@ != "sequential"@ ==> (r matches Err(m) && m@
            == unknown_strategy_text(name@)),
{
    proof {
        reveal_strlit("split");
        reveal_strlit("sequential");
        assert("split"@.len() != "sequential"@.len());
    }
    let split = String::from_str("split");
    let sequential = String::from_str("sequential");
    if *name == split {
        Ok(DownloadStrategy::Split)
    } else if *name == sequential {
        Ok(DownloadStrategy::Sequential)
    } else {
        let head = concat_str("unknown strategy: ", name.as_str());
        Err(concat_str(head.as_str(), " (use 'split' or 'sequential')"))
    }
}

/// A 32-byte content hash, as two big-endian halves.
#[derive(Clone, Copy, Debug, PartialEq, Eq, Structural)]
pub struct ContentHash {
    pub hi: u128,
    pub lo: u128,
}

/// Why the provider tickets were refused. Positions count the primary ticket as
/// #1, so the first additional provider is #2.
#[derive(Clone, Copy, Debug, PartialEq, Eq, Structural)]
pub enum ProviderError {
    /// The ticket at this position does not parse.
    InvalidTicket { position: usize },
    /// The ticket at this position names other content.
    DifferentHash { position: usize, expected: ContentHash, got: ContentHash },
}

/// The position an error names.
pub open spec fn error_position(e: ProviderError) -> int {
    match e {
        ProviderError::InvalidTicket { position } => position as int,
        ProviderError::DifferentHash { position, .. } => position as int,
    }
}

/// Check the additional provider tickets in order: each must parse (`Some`) and
/// name the same content as the primary ticket. The first one that fails decides
/// the error.
pub fn check_providers(primary: ContentHash, providers: &Vec<Option<ContentHash>>) -> (r: Result<
    (),
    ProviderError,
>)
    requires
        providers@.len() + 2 <= usize::MAX,
    ensures
        r is Ok <==> forall|i: int|
            0 <= i < providers@.len() ==> #[trigger] providers@[i] == Some(primary),
        r matches Err(e) ==> ({
            let i = error_position(e) - 2;
            &&& 0 <= i < providers@.len()
            &&& forall|j: int| 0 <= j < i ==> #[trigger] providers@[j] == Some(primary)
            &&& match providers@[i] {
                None => e is InvalidTicket,
                Some(h) => h != primary && e == ProviderError::DifferentHash {
                    position: e->DifferentHash_position,
                    expected: primary,
                    got: h,
                },
            }
        }),
{
    let mut i: usize = 0;
    while i < providers.len()
        invariant
            i <= providers@.len(),
            providers@.len() + 2 <= usize::MAX,
            forall|j: int| 0 <= j < i ==> #[trigger] providers@[j] == Some(primary),
        decreases providers@.len() - i,
    {
        match providers[i] {
            None => {
                return Err(ProviderError::InvalidTicket { position: i + 2 });
            },
            Some(h) => {
                if h != primary {
                    return Err(
                        ProviderError::DifferentHash { position: i + 2, expected: primary, got: h },
                    );
                }
            },
        }
        i = i + 1;
    }
    Ok(())
}

} // verus!
