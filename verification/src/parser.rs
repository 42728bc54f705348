//! The playlist parser: a permissive scan of extended-M3U text that turns
//! each well-formed entry — a marker line immediately followed by a usable
//! url line — into one channel record, in source order. Malformed input is
//! never an error; at worst no records are produced.
use crate::channel::Channel;
use crate::channel::ChannelModel;
use crate::channel::channel_wf;
use crate::ident::generate_id;
use crate::ident::spec_id;
use crate::text::chars_to_string;
use crate::text::copy_range;
use crate::text::find;
use crate::text::lemma_find_bounds;
use crate::text::lemma_rfind_bounds;
use crate::text::lines_view;
use crate::text::match_at;
use crate::text::rfind_char;
use crate::text::spec_find;
use crate::text::spec_match_at;
use crate::text::spec_rfind;
use crate::text::spec_split_lines;
use crate::text::spec_trim;
use crate::text::split_lines;
use crate::text::str_to_chars;
use crate::text::trim;
use vstd::prelude::*;

verus! {

/// The marker that opens an entry line.
pub open spec fn extinf_marker() -> Seq<char> {
    "#EXTINF:"@
}

/// The key, with its opening quote, of the logo attribute.
pub open spec fn logo_key() -> Seq<char> {
    "tvg-logo=\""@
}

/// The key, with its opening quote, of the group attribute.
pub open spec fn group_key() -> Seq<char> {
    "group-title=\""@
}

/// The key, with its opening quote, of the program-guide attribute.
pub open spec fn epg_key() -> Seq<char> {
    "tvg-id=\""@
}

/// The value of a quoted attribute in `region`: the text between the
/// first occurrence of `key` and the next quote, if both exist. An absent
/// key or a missing closing quote yields nothing, never an error. The
/// first occurrence of the key wins.
pub open spec fn spec_extract_attr(region: Seq<char>, key: Seq<char>) -> Option<Seq<char>> {
    match spec_find(region, key, 0) {
        None => None,
        Some(p) => {
            let rest = region.skip(p + key.len());
            match spec_find(rest, seq!['"'], 0) {
                None => None,
                Some(q) => Some(rest.take(q)),
            }
        },
    }
}

/// The display name on a trimmed entry line: everything after the last
/// comma, trimmed; empty when no comma exists.
pub open spec fn spec_name_of(meta: Seq<char>) -> Seq<char> {
    match spec_rfind(meta, ',', meta.len() as int) {
        Some(p) => spec_trim(meta.subrange(p + 1, meta.len() as int)),
        None => Seq::empty(),
    }
}

/// The attribute region of a trimmed entry line: everything from the
/// first space on, or nothing when the line has no space.
pub open spec fn spec_attr_region(meta: Seq<char>) -> Option<Seq<char>> {
    match spec_find(meta, seq![' '], 0) {
        Some(sp) => Some(meta.skip(sp)),
        None => None,
    }
}

/// The record built from a trimmed entry line and a trimmed url line.
pub open spec fn record_of(meta: Seq<char>, url: Seq<char>) -> ChannelModel {
    let name = spec_name_of(meta);
    match spec_attr_region(meta) {
        Some(region) => ChannelModel {
            id: spec_id(name, url),
            name,
            url,
            logo: spec_extract_attr(region, logo_key()),
            group: spec_extract_attr(region, group_key()),
            epg_id: spec_extract_attr(region, epg_key()),
        },
        None => ChannelModel {
            id: spec_id(name, url),
            name,
            url,
            logo: None,
            group: None,
            epg_id: None,
        },
    }
}

/// The records recognized from `lines` starting at line `i`. A line whose
/// trimmed form opens with the entry marker consumes the following line
/// as its url candidate, whether or not that candidate is usable; every
/// other line is ignored.
pub open spec fn parse_lines(lines: Seq<Seq<char>>, i: int) -> Seq<ChannelModel>
    decreases lines.len() - i,
    when 0 <= i <= lines.len()
{
    if i >= lines.len() {
        Seq::empty()
    } else {
        let t = spec_trim(lines[i]);
        if spec_match_at(t, extinf_marker(), 0) {
            if i + 1 < lines.len() {
                let u = spec_trim(lines[i + 1]);
                if u.len() > 0 && u[0] != '#' {
                    seq![record_of(t, u)] + parse_lines(lines, i + 2)
                } else {
                    parse_lines(lines, i + 2)
                }
            } else {
                Seq::empty()
            }
        } else {
            parse_lines(lines, i + 1)
        }
    }
}

/// The records recognized in raw playlist text.
pub open spec fn parse_models(s: Seq<char>) -> Seq<ChannelModel> {
    parse_lines(spec_split_lines(s), 0)
}

/// The models of a vector of channel records.
pub open spec fn channels_view(cs: Seq<Channel>) -> Seq<ChannelModel> {
    cs.map_values(|c: Channel| c@)
}

/// The view of an optional string.
pub open spec fn opt_view(o: Option<String>) -> Option<Seq<char>> {
    match o {
        Some(s) => Some(s@),
        None => None,
    }
}

/// Extracts one quoted attribute value from the attribute region.
fn extract_attr(region: &Vec<char>, key: &Vec<char>) -> (r: Option<String>)
    ensures
        opt_view(r) == spec_extract_attr(region@, key@),
{
    match find(region, key, 0) {
        None => None,
        Some(p) => {
            proof {
                lemma_find_bounds(region@, key@, 0);
            }
            let n = region.len();
            assert(p + key@.len() <= n);
            let start = p + key.len();
            let rest = copy_range(region, start, n);
            assert(rest@ =~= region@.skip(start as int));
            let mut quote: Vec<char> = Vec::new();
            quote.push('"');
            assert(quote@ =~= seq!['"']);
            match find(&rest, &quote, 0) {
                None => None,
                Some(q) => {
                    proof {
                        lemma_find_bounds(rest@, seq!['"'], 0);
                    }
                    let val = copy_range(&rest, 0, q);
                    assert(val@ =~= rest@.take(q as int));
                    Some(chars_to_string(&val))
                },
            }
        },
    }
}

/// Builds the channel record for a trimmed entry line `t` and a trimmed,
/// usable url line `u`.
#[verifier::rlimit(100)]
fn build_channel(t: &Vec<char>, u: &Vec<char>) -> (c: Channel)
    ensures
        c@ == record_of(t@, u@),
{
    let name_chars = match rfind_char(t, ',') {
        Some(p) => {
            proof {
                lemma_rfind_bounds(t@, ',', t@.len() as int);
            }
            let n = t.len();
            assert(p + 1 <= n);
            let after = copy_range(t, p + 1, n);
            trim(&after)
        },
        None => Vec::new(),
    };
    assert(name_chars@ == spec_name_of(t@));
    let name = chars_to_string(&name_chars);
    let url = chars_to_string(u);
    let id = generate_id(name.as_str(), url.as_str());
    let mut space: Vec<char> = Vec::new();
    space.push(' ');
    assert(space@ =~= seq![' ']);
    let (logo, group, epg_id) = match find(t, &space, 0) {
        Some(sp) => {
            proof {
                lemma_find_bounds(t@, seq![' '], 0);
            }
            let region = copy_range(t, sp, t.len());
            assert(region@ =~= t@.skip(sp as int));
            let lk = str_to_chars("tvg-logo=\"");
            let gk = str_to_chars("group-title=\"");
            let ek = str_to_chars("tvg-id=\"");
            (extract_attr(&region, &lk), extract_attr(&region, &gk), extract_attr(&region, &ek))
        },
        None => (None, None, None),
    };
    let c = Channel { id, name, url, logo, group, epg_id };
    proof {
        let m = record_of(t@, u@);
        assert(c@.name == m.name);
        assert(c@.url == m.url);
        assert(c@.id == m.id);
        assert(c@.logo == m.logo);
        assert(c@.group == m.group);
        assert(c@.epg_id == m.epg_id);
        assert(c@ == m);
    }
    c
}

/// Parses raw playlist text into the ordered sequence of channel records.
/// Parsing is permissive and total: it always succeeds, and malformed
/// input merely yields fewer records, at worst none.
pub fn parse_m3u(content: String) -> (r: Result<Vec<Channel>, String>)
    ensures
        r matches Ok(cs) && channels_view(cs@) == parse_models(content@),
        r matches Ok(cs) ==> forall|j: int|
            0 <= j < channels_view(cs@).len() ==> channel_wf(#[trigger] channels_view(cs@)[j]),
{
    proof {
        lemma_parse_models_wf(content@);
    }
    let chars = str_to_chars(content.as_str());
    let lines = split_lines(&chars);
    let ghost ls = lines_view(lines@);
    assert(ls == spec_split_lines(content@));
    let marker = str_to_chars("#EXTINF:");
    assert(marker@ == extinf_marker());
    let mut out: Vec<Channel> = Vec::new();
    let mut i: usize = 0;
    while i < lines.len()
        invariant
            0 <= i <= lines@.len(),
            ls == lines_view(lines@),
            marker@ == extinf_marker(),
            channels_view(out@) + parse_lines(ls, i as int) == parse_lines(ls, 0),
        decreases lines@.len() - i,
    {
        let ghost out_before = out@;
        let t = trim(&lines[i]);
        assert(t@ == spec_trim(ls[i as int]));
        if match_at(&t, &marker, 0) {
            if i + 1 < lines.len() {
                let u = trim(&lines[i + 1]);
                assert(u@ == spec_trim(ls[i + 1 as int]));
                if u.len() > 0 && u[0] != '#' {
                    let c = build_channel(&t, &u);
                    out.push(c);
                    assert(channels_view(out@) =~= channels_view(out_before).push(c@));
                    assert(parse_lines(ls, i as int) == seq![record_of(t@, u@)] + parse_lines(
                        ls,
                        i + 2 as int,
                    ));
                    assert(channels_view(out@) + parse_lines(ls, i + 2 as int) =~= channels_view(
                        out_before,
                    ) + parse_lines(ls, i as int));
                }
                i += 2;
            } else {
                assert(parse_lines(ls, i as int) == Seq::<ChannelModel>::empty());
                i = lines.len();
            }
        } else {
            i += 1;
        }
    }
    assert(channels_view(out@) =~= channels_view(out@) + parse_lines(ls, lines@.len() as int));
    Ok(out)
}

/// A playlist with no entry-marker line parses to no records at all, from
/// any starting line on.
pub proof fn lemma_parse_lines_no_marker(lines: Seq<Seq<char>>, i: int)
    requires
        0 <= i <= lines.len(),
        forall|j: int|
            i <= j < lines.len() ==> !spec_match_at(
                spec_trim(#[trigger] lines[j]),
                extinf_marker(),
                0,
            ),
    ensures
        parse_lines(lines, i) == Seq::<ChannelModel>::empty(),
    decreases lines.len() - i,
{
    if i < lines.len() {
        lemma_parse_lines_no_marker(lines, i + 1);
    }
}

/// A playlist with no entry-marker line parses to no records at all.
pub proof fn lemma_parse_no_marker(s: Seq<char>)
    requires
        forall|j: int|
            0 <= j < spec_split_lines(s).len() ==> !spec_match_at(
                spec_trim(#[trigger] spec_split_lines(s)[j]),
                extinf_marker(),
                0,
            ),
    ensures
        parse_models(s) == Seq::<ChannelModel>::empty(),
{
    lemma_parse_lines_no_marker(spec_split_lines(s), 0);
}

/// A well-formed entry pair — a marker line immediately followed by a
/// usable url line — yields a record whose url is exactly the trimmed url
/// line and whose identifier is exactly the one derived from its name and
/// url.
pub proof fn lemma_entry_pair(lines: Seq<Seq<char>>, i: int)
    requires
        0 <= i,
        i + 1 < lines.len(),
        spec_match_at(spec_trim(lines[i]), extinf_marker(), 0),
        spec_trim(lines[i + 1]).len() > 0,
        spec_trim(lines[i + 1])[0] != '#',
    ensures
        parse_lines(lines, i).len() >= 1,
        parse_lines(lines, i)[0] == record_of(spec_trim(lines[i]), spec_trim(lines[i + 1])),
        parse_lines(lines, i)[0].url == spec_trim(lines[i + 1]),
        parse_lines(lines, i)[0].id == spec_id(
            parse_lines(lines, i)[0].name,
            parse_lines(lines, i)[0].url,
        ),
{
    let t = spec_trim(lines[i]);
    let u = spec_trim(lines[i + 1]);
    assert(parse_lines(lines, i) == seq![record_of(t, u)] + parse_lines(lines, i + 2));
    assert(parse_lines(lines, i)[0] == record_of(t, u));
}

/// An entry whose url candidate is missing, empty, or a comment line
/// yields no record for that entry: parsing resumes after the candidate
/// with nothing emitted.
pub proof fn lemma_entry_discarded(lines: Seq<Seq<char>>, i: int)
    requires
        0 <= i < lines.len(),
        spec_match_at(spec_trim(lines[i]), extinf_marker(), 0),
        i + 1 < lines.len() ==> spec_trim(lines[i + 1]).len() == 0 || spec_trim(lines[i + 1])[0]
            == '#',
    ensures
        parse_lines(lines, i) == if i + 1 < lines.len() {
            parse_lines(lines, i + 2)
        } else {
            Seq::<ChannelModel>::empty()
        },
{
}

/// In a region that holds `key` exactly once, immediately followed by a
/// quote-free value and its closing quote, extraction yields exactly that
/// value: the result depends only on the text that follows the key, not
/// on where in the region the attribute stands.
pub proof fn lemma_extract_attr_unique(r: Seq<char>, key: Seq<char>, v: Seq<char>, p: int)
    requires
        spec_match_at(r, key + v + seq!['"'], p),
        forall|q: int| q != p ==> !spec_match_at(r, key, q),
        forall|j: int| 0 <= j < v.len() ==> v[j] != '"',
    ensures
        spec_extract_attr(r, key) == Some(v),
{
    let full = key + v + seq!['"'];
    assert forall|j: int| 0 <= j < key.len() implies r[p + j] == #[trigger] key[j] by {
        assert(r[p + j] == full[j]);
        assert(full[j] == key[j]);
    }
    assert(spec_match_at(r, key, p));
    lemma_find_bounds(r, key, 0);
    assert(spec_find(r, key, 0) == Some(p));
    let rest = r.skip(p + key.len());
    assert(p + full.len() <= r.len());
    assert(rest.len() == r.len() - p - key.len());
    assert(forall|j: int| 0 <= j < v.len() ==> #[trigger] rest[j] == v[j]) by {
        assert(forall|j: int|
            0 <= j < v.len() ==> #[trigger] rest[j] == r[p + key.len() + j] && r[p + key.len() + j]
                == full[key.len() + j] && full[key.len() + j] == v[j]);
    }
    assert(rest[v.len() as int] == '"') by {
        assert(rest[v.len() as int] == r[p + key.len() + v.len() as int]);
        assert(r[p + key.len() + v.len() as int] == full[key.len() + v.len() as int]);
        assert(full[key.len() + v.len() as int] == '"');
    }
    lemma_find_bounds(rest, seq!['"'], 0);
    assert(spec_match_at(rest, seq!['"'], v.len() as int));
    if spec_find(rest, seq!['"'], 0) is None {
        assert(false);
    }
    let q = spec_find(rest, seq!['"'], 0)->Some_0;
    assert(spec_match_at(rest, seq!['"'], q));
    assert(rest[q + 0] == seq!['"'][0]);
    assert(rest[q] == '"');
    if q < v.len() {
        assert(rest[q] == v[q]);
        assert(false);
    }
    if q > v.len() {
        assert(!spec_match_at(rest, seq!['"'], v.len() as int));
        assert(false);
    }
    assert(rest.take(q) =~= v);
}

/// Attribute extraction is independent of attribute order: two regions
/// that each hold `key` exactly once, followed in both by the same
/// quote-free value and its closing quote, yield the same extracted
/// value, wherever the attribute stands in each region.
pub proof fn lemma_extract_attr_order_independent(
    r1: Seq<char>,
    r2: Seq<char>,
    key: Seq<char>,
    v: Seq<char>,
    pa: int,
    pb: int,
)
    requires
        spec_match_at(r1, key + v + seq!['"'], pa),
        forall|q: int| q != pa ==> !spec_match_at(r1, key, q),
        spec_match_at(r2, key + v + seq!['"'], pb),
        forall|q: int| q != pb ==> !spec_match_at(r2, key, q),
        forall|j: int| 0 <= j < v.len() ==> v[j] != '"',
    ensures
        spec_extract_attr(r1, key) == spec_extract_attr(r2, key),
        spec_extract_attr(r1, key) == Some(v),
{
    lemma_extract_attr_unique(r1, key, v, pa);
    lemma_extract_attr_unique(r2, key, v, pb);
}

/// A playlist of exactly one well-formed entry — a newline-free marker
/// line, a newline, and a newline-free usable url line — parses to exactly
/// that one record.
pub proof fn lemma_two_line_playlist(meta: Seq<char>, url: Seq<char>)
    requires
        forall|j: int| 0 <= j < meta.len() ==> meta[j] != '\n',
        forall|j: int| 0 <= j < url.len() ==> url[j] != '\n',
        spec_match_at(spec_trim(meta), extinf_marker(), 0),
        spec_trim(url).len() > 0,
        spec_trim(url)[0] != '#',
    ensures
        parse_models(meta + seq!['\n'] + url) == seq![record_of(spec_trim(meta), spec_trim(url))],
{
    crate::text::lemma_split_two_lines(meta, url);
    let lines = spec_split_lines(meta + seq!['\n'] + url);
    assert(lines == seq![meta, url]);
    assert(lines[0] == meta);
    assert(lines[1] == url);
    lemma_entry_pair(lines, 0);
    let r = record_of(spec_trim(meta), spec_trim(url));
    assert(parse_lines(lines, 0) == seq![r] + parse_lines(lines, 2));
    assert(parse_lines(lines, 2) == Seq::<ChannelModel>::empty());
    assert(seq![r] + Seq::<ChannelModel>::empty() =~= seq![r]);
}

/// Every record the parser emits is well formed: its url is non-empty,
/// its url does not open a comment line, and its identifier is derived
/// from its name and url.
pub proof fn lemma_parse_lines_wf(lines: Seq<Seq<char>>, i: int)
    requires
        0 <= i <= lines.len(),
    ensures
        forall|j: int|
            0 <= j < parse_lines(lines, i).len() ==> channel_wf(
                #[trigger] parse_lines(lines, i)[j],
            ),
    decreases lines.len() - i,
{
    if i < lines.len() {
        let t = spec_trim(lines[i]);
        if spec_match_at(t, extinf_marker(), 0) {
            if i + 1 < lines.len() {
                lemma_parse_lines_wf(lines, i + 2);
                let u = spec_trim(lines[i + 1]);
                if u.len() > 0 && u[0] != '#' {
                    let r = record_of(t, u);
                    assert(channel_wf(r));
                    assert(parse_lines(lines, i) == seq![r] + parse_lines(lines, i + 2));
                    assert forall|j: int| 0 <= j < parse_lines(lines, i).len() implies channel_wf(
                        #[trigger] parse_lines(lines, i)[j],
                    ) by {
                        if j > 0 {
                            assert(parse_lines(lines, i)[j] == parse_lines(lines, i + 2)[j - 1]);
                        }
                    }
                } else {
                    assert forall|j: int| 0 <= j < parse_lines(lines, i).len() implies channel_wf(
                        #[trigger] parse_lines(lines, i)[j],
                    ) by {
                        assert(parse_lines(lines, i)[j] == parse_lines(lines, i + 2)[j]);
                    }
                }
            }
        } else {
            lemma_parse_lines_wf(lines, i + 1);
            assert forall|j: int| 0 <= j < parse_lines(lines, i).len() implies channel_wf(
                #[trigger] parse_lines(lines, i)[j],
            ) by {
                assert(parse_lines(lines, i)[j] == parse_lines(lines, i + 1)[j]);
            }
        }
    }
}

/// Every record parsed from raw playlist text is well formed.
pub proof fn lemma_parse_models_wf(s: Seq<char>)
    ensures
        forall|j: int|
            0 <= j < parse_models(s).len() ==> channel_wf(#[trigger] parse_models(s)[j]),
{
    lemma_parse_lines_wf(spec_split_lines(s), 0);
}

} // verus!
