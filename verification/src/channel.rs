//! The channel record produced by the playlist parser, together with its
//! mathematical model and well-formedness condition.
use crate::ident::spec_id;
use vstd::prelude::*;

verus! {

/// The mathematical model of one playlist entry.
pub ghost struct ChannelModel {
    pub id: Seq<char>,
    pub name: Seq<char>,
    pub url: Seq<char>,
    pub logo: Option<Seq<char>>,
    pub group: Option<Seq<char>>,
    pub epg_id: Option<Seq<char>>,
}

/// One playlist entry: a stable identifier, a display name (possibly
/// empty), the stream url, and three optional attributes. Records are
/// immutable once produced; re-parsing yields a fresh sequence.
#[derive(Clone)]
pub struct Channel {
    pub id: String,
    pub name: String,
    pub url: String,
    pub logo: Option<String>,
    pub group: Option<String>,
    pub epg_id: Option<String>,
}

impl View for Channel {
    type V = ChannelModel;

    open spec fn view(&self) -> ChannelModel {
        ChannelModel {
            id: self.id@,
            name: self.name@,
            url: self.url@,
            logo: match self.logo {
                Some(s) => Some(s@),
                None => None,
            },
            group: match self.group {
                Some(s) => Some(s@),
                None => None,
            },
            epg_id: match self.epg_id {
                Some(s) => Some(s@),
                None => None,
            },
        }
    }
}

/// A record is well formed when its url is non-empty, its url does not
/// begin a comment line, and its identifier is exactly the one derived
/// from its name and url.
pub open spec fn channel_wf(m: ChannelModel) -> bool {
    &&& m.url.len() > 0
    &&& m.url[0] != '#'
    &&& m.id == spec_id(m.name, m.url)
}

} // verus!
