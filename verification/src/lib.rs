//! One moment in time, read in every zone you care about.
//!
//! The library holds the logic of the `zoners` tools: the hand-written
//! parsers for times, dates, offsets and the places list, the conversion of
//! one moment into every place, and the decisions behind the table and the
//! dial that show it.
mod band;
mod convert;
mod error;
mod laws;
mod moment;
mod parse;
mod places;
mod text;
mod view;
mod zone;

pub use band::Band;
pub use convert::{convert, requested, source_zone, Query, Row};
pub use zone::{Zone, ZoneName};
pub use error::{Error, Result};
pub use moment::{CivilDate, CivilTime, Moment};
pub use parse::{parse_clock, parse_date, parse_offset, parse_offset_upper, parse_time};
pub use places::{load_places, parse_places, place_entries, places_from, Entry, Place};
pub use view::{
    default_zone_name, dial_angle, dial_days, find_asset, given, invalid_field, is_live, marks, minutes,
    place_width, response_status, source_row, Mark,
};
pub use laws::{
    law_any_place_keeps, law_bands_of_the_day, law_labels_ignore_ascii_case,
    law_lead_row_only_without_a_source_place, law_missing_fields_are_now,
    law_source_mark_from_any_row, law_rows_read_one_instant, law_widest_label,
    law_mark_lists_its_offset,
    law_blank_is_absent, law_value_is_trimmed,
    law_each_row_on_one_mark, law_entries_are_not_comments, law_label_defaults_to_zone,
    law_offset_sign, law_pm_is_twelve_hours_after_am, law_semicolon_is_newline,
    law_spaces_are_ignored, law_texts_concatenate, law_zone_prefix_optional,
};
