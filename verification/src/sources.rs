use vstd::prelude::*;

verus! {

/// The username of the member whose messages become quotes.
pub const MATTHEW_USERNAME: &'static str = "MatthewAFN";

/// The source of Matthew's quotes.
pub const MATTHEW_SOURCE: &'static str = "matthew";

/// The source of the stream's quotes.
pub const STREAM_SOURCE: &'static str = "stream";

/// The source of Vinogradov's quotes.
pub const VINOGRAD_SOURCE: &'static str = "vinograd";

/// The word that calls for one of Matthew's quotes.
pub const MATTHEW_KEYWORD: &'static str = "матвей";

/// The word that calls for one of the stream's quotes.
pub const STREAM_KEYWORD: &'static str = "стрим";

/// The word that calls for one of Vinogradov's quotes.
pub const VINOGRAD_KEYWORD: &'static str = "виноград";

/// The sources quotes are grouped by.
pub open spec fn source_names() -> Seq<Seq<char>> {
    seq![MATTHEW_SOURCE@, STREAM_SOURCE@, VINOGRAD_SOURCE@]
}

/// Every source of quotes.
pub fn sources() -> (r: Vec<&'static str>)
    ensures
        r@.map_values(|s: &str| s@) == source_names(),
{
    let r = vec![MATTHEW_SOURCE, STREAM_SOURCE, VINOGRAD_SOURCE];
    assert(r@.map_values(|s: &str| s@) =~= source_names());
    r
}

} // verus!
