//! The metadata view of an entity: size, read-only flag, and the three
//! timestamps rendered in a fixed textual format at the local offset.

use vstd::prelude::*;

verus! {

/// The timestamp format used for entity details.
pub const DETAILS_TIME_FORMAT: &'static str =
    "[year]-[month]-[day] [hour]:[minute]:[second] [offset_hour sign:mandatory]:[offset_minute]:[offset_second]";

/// What a caller sees of one entity's metadata.
#[derive(Debug)]
pub struct MetadataView {
    pub size: u64,
    pub readonly: bool,
    pub created: String,
    pub modified: String,
    pub accessed: String,
}

/// The timestamp actually rendered: the one reported, or the Unix epoch
/// when the platform does not support that timestamp.
pub fn effective_timestamp(reported: Option<i64>) -> (r: i64)
    ensures
        reported matches Some(s) ==> r == s,
        reported is None ==> r == 0,
{
    match reported {
        Some(s) => s,
        None => 0,
    }
}

/// Relies on time's `format_description::parse`, `OffsetDateTime::from_unix_timestamp`,
/// `UtcOffset::current_local_offset` and `OffsetDateTime::format`: renders
/// a unix timestamp with the given format, at the local offset when the
/// machine reveals it and at UTC otherwise. The rendering depends on the
/// machine's time zone, so nothing is promised of the text.
#[verifier::external_body]
fn render_timestamp(secs: i64, format: &str) -> String {
    let parsed = match time::format_description::parse(format) {
        Ok(f) => f,
        Err(_) => return "Unknown".to_string(),
    };
    let dt = match time::OffsetDateTime::from_unix_timestamp(secs) {
        Ok(d) => d,
        Err(_) => return "Unknown".to_string(),
    };
    let offset = time::UtcOffset::current_local_offset().unwrap_or(time::UtcOffset::UTC);
    dt.to_offset(offset).format(&parsed).unwrap_or_else(|_| "Unknown".to_string())
}

impl MetadataView {
    /// Builds the view from what a stat call reported: the size and
    /// read-only flag are carried over as they are; a timestamp the
    /// platform could not report falls back to the Unix epoch rather
    /// than failing.
    pub fn new(
        size: u64,
        readonly: bool,
        created: Option<i64>,
        modified: Option<i64>,
        accessed: Option<i64>,
    ) -> (r: MetadataView)
        ensures
            r.size == size,
            r.readonly == readonly,
    {
        let created = render_timestamp(effective_timestamp(created), DETAILS_TIME_FORMAT);
        let modified = render_timestamp(effective_timestamp(modified), DETAILS_TIME_FORMAT);
        let accessed = render_timestamp(effective_timestamp(accessed), DETAILS_TIME_FORMAT);
        MetadataView { size, readonly, created, modified, accessed }
    }
}

} // verus!
