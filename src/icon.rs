//! The icon resolver: from the icon that the content type maps to, to what a
//! result row draws.
use vstd::prelude::*;

use crate::search::IconDescriptor;

verus! {

/// The system icon that a file's guessed content type maps to.
pub enum IconSource {
    /// A theme icon, with its candidate names in order of preference.
    Themed(Vec<String>),
    /// An icon stored in a file, with the file's local path when it has one.
    File(Option<String>),
    /// Any other kind of icon, or none.
    Other,
}

/// What a row draws for `source`. `decoded` tells whether the image file that
/// a file icon names could be decoded at 24 by 24; it matters for nothing else.
pub open spec fn icon_for(source: IconSource, decoded: bool) -> IconDescriptor {
    match source {
        IconSource::Themed(names) => if names@.len() > 0 {
            IconDescriptor::ThemedName(names@[0])
        } else {
            IconDescriptor::Fallback
        },
        IconSource::File(Some(p)) => if decoded {
            IconDescriptor::Bitmap(p)
        } else {
            IconDescriptor::Fallback
        },
        _ => IconDescriptor::Fallback,
    }
}

/// A theme icon takes its first name; a file icon whose image decodes is
/// drawn from that image; everything else gets the generic icon.
pub fn resolve_icon(source: &IconSource, decoded: bool) -> (r: IconDescriptor)
    ensures
        match icon_for(*source, decoded) {
            IconDescriptor::ThemedName(n) => r is ThemedName && r->ThemedName_0@ == n@,
            IconDescriptor::Bitmap(p) => r is Bitmap && r->Bitmap_0@ == p@,
            IconDescriptor::Fallback => r is Fallback,
        },
{
    match source {
        IconSource::Themed(names) => {
            if names.len() > 0 {
                IconDescriptor::ThemedName(names[0].clone())
            } else {
                IconDescriptor::Fallback
            }
        },
        IconSource::File(Some(p)) => {
            if decoded {
                IconDescriptor::Bitmap(p.clone())
            } else {
                IconDescriptor::Fallback
            }
        },
        _ => IconDescriptor::Fallback,
    }
}

} // verus!
