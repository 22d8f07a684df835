//! Reading: content types, directory listings, and the decisions that serving
//! a path takes between one file-system answer and the next.

use vstd::prelude::*;
use vstd::string::*;
use vstd::utf8::encode_utf8;
use crate::error::GatewayError;
use crate::jstemplate::FileItem;
use crate::order::{lemma_name_le_antisymmetric, lemma_name_le_total, lemma_name_le_transitive,
    name_at_or_before, name_le};
use crate::path::{check_dotdot, check_name, is_dot, is_dotdot, is_name, joined,
    lemma_split_appended_name, normalize, resolvable, resolve, resolved_names, split_path,
    split_segments, ResolvedPath};
use crate::size::{format_size, size_text};
use crate::text::{find_last, last_index_of, lemma_last_index_of, names, str_eq};

verus! {

/// The last segment that names something: empty segments and `.` at the end
/// are passed over, and there is none where `..` comes first from the end.
pub open spec fn last_component(segs: Seq<Seq<char>>) -> Option<Seq<char>>
    decreases segs.len(),
{
    if segs.len() == 0 {
        None
    } else if is_dotdot(segs.last()) {
        None
    } else if is_name(segs.last()) {
        Some(segs.last())
    } else {
        last_component(segs.drop_last())
    }
}

/// The file name of `path`: its last segment, whatever separators or `.`
/// segments follow it; none where the path is empty or ends in `..`.
pub open spec fn file_name_of(path: Seq<char>) -> Option<Seq<char>> {
    last_component(split_path(path))
}

/// The extension of the file name `name`: what follows its last `.`, unless the
/// name has no `.` or only begins with one.
pub open spec fn extension_of_name(name: Seq<char>) -> Option<Seq<char>> {
    let k = last_index_of(name, '.');
    if k <= 0 {
        None
    } else {
        Some(name.subrange(k + 1, name.len() as int))
    }
}

/// The extension of the file that `path` names.
pub open spec fn extension_of(path: Seq<char>) -> Option<Seq<char>> {
    match file_name_of(path) {
        Some(name) => extension_of_name(name),
        None => None,
    }
}

/// A separator behind a path, or a separator and `.`, leaves its file name as
/// it is, and so its extension and its content type.
pub proof fn lemma_trailing_separator(path: Seq<char>)
    ensures
        file_name_of(path.push('/')) == file_name_of(path),
        file_name_of(path + seq!['/'] + seq!['.']) == file_name_of(path),
        extension_of(path.push('/')) == extension_of(path),
        extension_of(path + seq!['/'] + seq!['.']) == extension_of(path),
{
    let cut = split_path(path);
    let empty = Seq::<char>::empty();
    assert(path.push('/').drop_last() =~= path);
    assert(split_path(path.push('/')) == cut.push(empty));
    assert(cut.push(empty).drop_last() =~= cut);
    let dot = seq!['.'];
    assert(!dot.contains('/')) by {
        if dot.contains('/') {
            let i = choose|i: int| 0 <= i < dot.len() && dot[i] == '/';
            assert(dot[i] == '.');
        }
    }
    lemma_split_appended_name(path, dot);
    assert(cut.push(dot).drop_last() =~= cut);
    assert(is_dot(dot));
}

/// The content type of the entry that the names lead to: that of the last
/// name's extension, and that of no extension for the root.
pub open spec fn mime_of_names(names: Seq<Seq<char>>) -> Seq<char> {
    if names.len() == 0 {
        mime_for(None)
    } else {
        mime_for(extension_of_name(names.last()))
    }
}

/// Where no segment of a path is `..`, the path resolves and its file name is
/// the last name that it resolves to: the content type by the request path and
/// the one by the resolved path are then the same.
pub proof fn lemma_file_name_is_last_resolved(segs: Seq<Seq<char>>)
    requires
        forall|i: int| 0 <= i < segs.len() ==> !is_dotdot(#[trigger] segs[i]),
    ensures
        normalize(segs) is Some,
        last_component(segs) == if (normalize(segs)->0).len() == 0 {
            None
        } else {
            Some((normalize(segs)->0).last())
        },
    decreases segs.len(),
{
    if segs.len() > 0 {
        let front = segs.drop_last();
        assert forall|i: int| 0 <= i < front.len() implies !is_dotdot(#[trigger] front[i]) by {
            assert(front[i] == segs[i]);
        }
        lemma_file_name_is_last_resolved(front);
        assert(!is_dotdot(segs[segs.len() - 1]));
    }
}

/// The content type that is served for an extension.
pub open spec fn mime_for(ext: Option<Seq<char>>) -> Seq<char> {
    match ext {
        None => "application/octet-stream"@,
        Some(e) => if e == "html"@ {
            "text/html; charset=utf-8"@
        } else if e == "css"@ {
            "text/css; charset=utf-8"@
        } else if e == "js"@ {
            "application/javascript; charset=utf-8"@
        } else if e == "json"@ {
            "application/json; charset=utf-8"@
        } else if e == "toml"@ {
            "text/plain; charset=utf-8"@
        } else if e == "md"@ {
            "text/markdown; charset=utf-8"@
        } else if e == "txt"@ {
            "text/plain; charset=utf-8"@
        } else if e == "pdf"@ {
            "application/pdf"@
        } else if e == "epub"@ {
            "application/epub+zip"@
        } else if e == "png"@ {
            "image/png"@
        } else if e == "jpg"@ || e == "jpeg"@ {
            "image/jpeg"@
        } else if e == "gif"@ {
            "image/gif"@
        } else if e == "svg"@ {
            "image/svg+xml"@
        } else if e == "bmp"@ {
            "image/bmp"@
        } else if e == "tiff"@ || e == "tif"@ {
            "image/tiff"@
        } else if e == "mp3"@ {
            "audio/mpeg"@
        } else if e == "wav"@ {
            "audio/wav"@
        } else if e == "ogg"@ {
            "audio/ogg"@
        } else if e == "flac"@ {
            "audio/flac"@
        } else if e == "mp4"@ {
            "video/mp4"@
        } else if e == "webm"@ {
            "video/webm"@
        } else if e == "avi"@ {
            "video/x-msvideo"@
        } else if e == "mov"@ {
            "video/quicktime"@
        } else if e == "mkv"@ {
            "video/x-matroska"@
        } else {
            "application/octet-stream"@
        },
    }
}

/// The content type for an extension, by the table.
pub fn mime_of_extension(e: &str) -> (r: &'static str)
    ensures
        r@ == mime_for(Some(e@)),
{
    if str_eq(e, "html") {
        "text/html; charset=utf-8"
    } else if str_eq(e, "css") {
        "text/css; charset=utf-8"
    } else if str_eq(e, "js") {
        "application/javascript; charset=utf-8"
    } else if str_eq(e, "json") {
        "application/json; charset=utf-8"
    } else if str_eq(e, "toml") {
        "text/plain; charset=utf-8"
    } else if str_eq(e, "md") {
        "text/markdown; charset=utf-8"
    } else if str_eq(e, "txt") {
        "text/plain; charset=utf-8"
    } else if str_eq(e, "pdf") {
        "application/pdf"
    } else if str_eq(e, "epub") {
        "application/epub+zip"
    } else if str_eq(e, "png") {
        "image/png"
    } else if str_eq(e, "jpg") || str_eq(e, "jpeg") {
        "image/jpeg"
    } else if str_eq(e, "gif") {
        "image/gif"
    } else if str_eq(e, "svg") {
        "image/svg+xml"
    } else if str_eq(e, "bmp") {
        "image/bmp"
    } else if str_eq(e, "tiff") || str_eq(e, "tif") {
        "image/tiff"
    } else if str_eq(e, "mp3") {
        "audio/mpeg"
    } else if str_eq(e, "wav") {
        "audio/wav"
    } else if str_eq(e, "ogg") {
        "audio/ogg"
    } else if str_eq(e, "flac") {
        "audio/flac"
    } else if str_eq(e, "mp4") {
        "video/mp4"
    } else if str_eq(e, "webm") {
        "video/webm"
    } else if str_eq(e, "avi") {
        "video/x-msvideo"
    } else if str_eq(e, "mov") {
        "video/quicktime"
    } else if str_eq(e, "mkv") {
        "video/x-matroska"
    } else {
        "application/octet-stream"
    }
}

/// The content type of the file named `name`, by its extension.
pub fn mime_of_name(name: &str) -> (r: &'static str)
    ensures
        r@ == mime_for(extension_of_name(name@)),
{
    let m = name.unicode_len();
    match find_last(name, '.') {
        None => "application/octet-stream",
        Some(k) => {
            if k == 0 {
                "application/octet-stream"
            } else {
                proof {
                    lemma_last_index_of(name@, '.');
                }
                let ext = name.substring_char(k + 1, m);
                mime_of_extension(ext)
            }
        },
    }
}

/// The content type of the file that `path` names, by the extension of its
/// file name; a path without a file name, and a file name without a known
/// extension, give `application/octet-stream`. Two paths whose file names have
/// the same extension get the same type, whatever separators end them.
pub fn guess_mime(path: &str) -> (r: &'static str)
    ensures
        r@ == mime_for(extension_of(path@)),
{
    let segs = split_segments(path);
    let mut i: usize = segs.len();
    proof {
        assert(names(segs@).take(i as int) =~= names(segs@));
    }
    while i > 0
        invariant
            i <= segs@.len(),
            names(segs@) == split_path(path@),
            last_component(names(segs@)) == last_component(names(segs@).take(i as int)),
        decreases i,
    {
        let seg = segs[i - 1].as_str();
        proof {
            let upto = names(segs@).take(i as int);
            assert(upto.last() == seg@);
            assert(upto.drop_last() =~= names(segs@).take(i - 1));
        }
        if check_dotdot(seg) {
            return "application/octet-stream";
        }
        if check_name(seg) {
            return mime_of_name(seg);
        }
        i -= 1;
    }
    "application/octet-stream"
}

/// Bytes that a link carries as they are: letters, digits, `-`, `.`, `_`, `~`.
pub open spec fn is_unreserved(b: u8) -> bool {
    (0x30 <= b <= 0x39) || (0x41 <= b <= 0x5a) || (0x61 <= b <= 0x7a) || b == 0x2d || b == 0x2e
        || b == 0x5f || b == 0x7e
}

/// The upper-case hexadecimal digit of `d`.
pub open spec fn hex_upper(d: u8) -> char {
    if d < 10 {
        ((0x30 + d) as u8) as char
    } else {
        ((0x37 + d) as u8) as char
    }
}

/// One byte in a link: itself, or `%` and its two hexadecimal digits.
pub open spec fn encoded_byte(b: u8) -> Seq<char> {
    if is_unreserved(b) {
        seq![b as char]
    } else {
        seq!['%', hex_upper(b / 16), hex_upper(b % 16)]
    }
}

/// The percent-encoding of `bytes`.
pub open spec fn percent_encoded(bytes: Seq<u8>) -> Seq<char>
    decreases bytes.len(),
{
    if bytes.len() == 0 {
        Seq::empty()
    } else {
        percent_encoded(bytes.drop_last()) + encoded_byte(bytes.last())
    }
}

/// Calls `urlencoding::encode`. Trusted: the result is the UTF-8 bytes of `s`,
/// each unreserved byte as it is and every other byte as `%` and two upper-case
/// hexadecimal digits, as that crate documents and its encoder does.
#[verifier::external_body]
fn percent_encode(s: &str) -> (r: String)
    ensures
        r@ == percent_encoded(encode_utf8(s@)),
{
    urlencoding::encode(s).into_owned()
}

/// The instants, in seconds since 1970-01-01 00:00:00 UTC, whose year has four
/// digits and no sign in every time zone: from one day after the beginning of
/// the year 0 to one day before the end of the year 9999.
pub open spec fn has_plain_year(secs: i64) -> bool {
    -62167132800 <= secs <= 253402214399
}

/// The shape `YYYY-MM-DD HH:MM:SS`: 19 characters, all of them digits but for
/// the two hyphens, the space and the two colons.
pub open spec fn is_time_text(s: Seq<char>) -> bool {
    &&& s.len() == 19
    &&& forall|i: int|
        0 <= i < 19 ==> if i == 4 || i == 7 {
            #[trigger] s[i] == '-'
        } else if i == 10 {
            s[i] == ' '
        } else if i == 13 || i == 16 {
            s[i] == ':'
        } else {
            '0' <= s[i] <= '9'
        }
}

/// Calls `chrono::DateTime::from_timestamp`, `with_timezone` for `chrono::Local`
/// and `format` with `%Y-%m-%d %H:%M:%S`. Trusted: for an instant whose year has
/// four digits wherever the machine stands, there is a text and it has that
/// shape. Which digits they are depends on the machine's time zone and is not
/// said; an instant out of the calendar's range has no text.
#[verifier::external_body]
fn local_time_text(secs: i64) -> (r: Option<String>)
    ensures
        has_plain_year(secs) ==> r is Some && is_time_text(r->0@),
{
    match chrono::DateTime::from_timestamp(secs, 0) {
        Some(utc) => Some(utc.with_timezone(&chrono::Local).format("%Y-%m-%d %H:%M:%S").to_string()),
        None => None,
    }
}

/// What the file system says of an entry.
#[derive(Clone, Copy, Debug)]
pub struct EntryMeta {
    /// Whether the entry is a directory.
    pub is_dir: bool,
    /// Its size in bytes.
    pub len: u64,
    /// When it was last modified, in seconds since 1970-01-01 00:00:00 UTC.
    pub modified: i64,
}

/// An entry of a directory as it was read: its name, and its metadata where
/// that could be had.
pub struct RawEntry {
    pub name: String,
    pub meta: Option<EntryMeta>,
}

/// Whether the entry is shown as a directory.
pub open spec fn shown_as_dir(meta: Option<EntryMeta>) -> bool {
    meta is Some && meta->0.is_dir
}

/// The name that a listing shows: the entry's, with `/` behind a directory's.
pub open spec fn display_name(name: Seq<char>, meta: Option<EntryMeta>) -> Seq<char> {
    if shown_as_dir(meta) {
        name + "/"@
    } else {
        name
    }
}

/// The relative link of an entry: its name percent-encoded, with `/` behind a
/// directory's.
pub open spec fn display_link(name: Seq<char>, meta: Option<EntryMeta>) -> Seq<char> {
    if shown_as_dir(meta) {
        percent_encoded(encode_utf8(name)) + "/"@
    } else {
        percent_encoded(encode_utf8(name))
    }
}

/// The size that a listing shows: `-` for a directory, nothing without
/// metadata, else the size in binary units.
pub open spec fn display_size(meta: Option<EntryMeta>) -> Seq<char> {
    match meta {
        None => Seq::empty(),
        Some(m) => if m.is_dir {
            "-"@
        } else {
            size_text(m.len as nat)
        },
    }
}

/// The date that a listing shows, given the text that the clock library made
/// of the modification time: nothing without metadata or without such a text.
pub open spec fn display_date(meta: Option<EntryMeta>, text: Option<String>) -> Seq<char> {
    if meta is Some && text is Some {
        text->0@
    } else {
        Seq::empty()
    }
}

/// The row for one entry, from its name, its metadata, its percent-encoded
/// name and the text of its modification time.
pub fn listing_item(
    name: &str,
    meta: Option<EntryMeta>,
    encoded: String,
    date: Option<String>,
) -> (item: FileItem)
    ensures
        item.name@ == display_name(name@, meta),
        item.link@ == if shown_as_dir(meta) {
            encoded@ + "/"@
        } else {
            encoded@
        },
        item.date@ == display_date(meta, date),
        item.size@ == display_size(meta),
{
    let mut shown = name.to_owned();
    let mut link = encoded;
    let (when, size) = match meta {
        None => (String::new(), String::new()),
        Some(m) => {
            let when = match date {
                Some(t) => t,
                None => String::new(),
            };
            if m.is_dir {
                shown.append("/");
                link.append("/");
                (when, "-".to_owned())
            } else {
                (when, format_size(m.len))
            }
        },
    };
    FileItem { name: shown, link, date: when, size }
}

/// The row that leads to the parent directory.
pub open spec fn is_parent_item(item: FileItem) -> bool {
    item.name@ == "../"@ && item.link@ == "../"@ && item.date@.len() == 0 && item.size@.len() == 0
}

/// Whether `item` is the row of `entry`: name, link and size are those of the
/// entry; an entry without metadata has no date, and one that was modified in a
/// year of four digits has a date of the shape `YYYY-MM-DD HH:MM:SS`.
pub open spec fn is_item_of(item: FileItem, entry: RawEntry) -> bool {
    &&& item.name@ == display_name(entry.name@, entry.meta)
    &&& item.link@ == display_link(entry.name@, entry.meta)
    &&& item.size@ == display_size(entry.meta)
    &&& entry.meta is None ==> item.date@.len() == 0
    &&& entry.meta is Some && has_plain_year(entry.meta->0.modified) ==> is_time_text(item.date@)
}

/// How many rows come before those of the entries: one, for the parent, in any
/// directory but the root.
pub open spec fn parent_rows(dir: ResolvedPath) -> int {
    if dir.segments().len() == 0 {
        0
    } else {
        1
    }
}

/// Whether the metadata `x` stands at or before `y`: missing metadata first,
/// then files before directories, then by size, then by modification time.
pub open spec fn meta_le(x: Option<EntryMeta>, y: Option<EntryMeta>) -> bool {
    match (x, y) {
        (None, _) => true,
        (Some(_), None) => false,
        (Some(m), Some(n)) => if m.is_dir != n.is_dir {
            !m.is_dir
        } else if m.len != n.len {
            m.len < n.len
        } else {
            m.modified <= n.modified
        },
    }
}

/// Whether the entry `a` stands at or before `b` in a listing: by name, and
/// entries of one name by their metadata.
pub open spec fn entry_le(a: RawEntry, b: RawEntry) -> bool {
    if a.name@ == b.name@ {
        meta_le(a.meta, b.meta)
    } else {
        name_le(a.name@, b.name@)
    }
}

/// Of two entries, one stands at or before the other.
pub proof fn lemma_entry_le_total(a: RawEntry, b: RawEntry)
    ensures
        entry_le(a, b) || entry_le(b, a),
{
    lemma_name_le_total(a.name@, b.name@);
}

/// What stands before an entry stands before every entry behind that one.
pub proof fn lemma_entry_le_transitive(a: RawEntry, b: RawEntry, c: RawEntry)
    requires
        entry_le(a, b),
        entry_le(b, c),
    ensures
        entry_le(a, c),
{
    if a.name@ != b.name@ && b.name@ != c.name@ {
        lemma_name_le_transitive(a.name@, b.name@, c.name@);
        if a.name@ == c.name@ {
            lemma_name_le_antisymmetric(a.name@, b.name@);
        }
    }
}

/// The order leaves nothing open: two entries that each stand at or before the
/// other have the same name and the same metadata, and so the same row.
pub proof fn lemma_entry_le_antisymmetric(a: RawEntry, b: RawEntry)
    requires
        entry_le(a, b),
        entry_le(b, a),
    ensures
        a.name@ == b.name@,
        a.meta == b.meta,
{
    if a.name@ != b.name@ {
        lemma_name_le_antisymmetric(a.name@, b.name@);
    }
}

/// Whether `order` names each of the first `k` places of `entries` once, the
/// entries ascending.
pub open spec fn orders_first(order: Seq<usize>, entries: Seq<RawEntry>, k: int) -> bool {
    &&& order.len() == k
    &&& k <= entries.len()
    &&& forall|i: int| 0 <= i < k ==> (#[trigger] order[i]) < k
    &&& forall|i: int, j: int| 0 <= i < j < k ==> #[trigger] order[i] != #[trigger] order[j]
    &&& forall|i: int, j: int|
        0 <= i < j < k ==> entry_le(
            entries[(#[trigger] order[i]) as int],
            entries[(#[trigger] order[j]) as int],
        )
}

/// Whether `order` is the ascending order of `entries`: a rearrangement of
/// their places by which the entries ascend, by name and then by metadata.
pub open spec fn is_entry_order(order: Seq<usize>, entries: Seq<RawEntry>) -> bool {
    orders_first(order, entries, entries.len() as int)
}

/// An entry order names every place: each entry has its place in the listing.
pub proof fn lemma_order_names_every_place(order: Seq<usize>, entries: Seq<RawEntry>, j: int)
    requires
        is_entry_order(order, entries),
        0 <= j < entries.len(),
    ensures
        exists|q: int| 0 <= q < order.len() && #[trigger] order[q] == j,
{
    let n = entries.len() as int;
    let places = Seq::new(n as nat, |i: int| order[i] as int);
    assert(places.no_duplicates()) by {
        assert forall|a: int, b: int| 0 <= a < n && 0 <= b < n && a != b implies places[a]
            != places[b] by {
            if a < b {
                assert(order[a] != order[b]);
            } else {
                assert(order[b] != order[a]);
            }
        }
    }
    places.unique_seq_to_set();
    places.lemma_cardinality_of_set();
    vstd::seq_lib::seq_to_set_is_finite(places);
    vstd::set_lib::lemma_int_range(0, n);
    let all = vstd::set_lib::set_int_range(0, n);
    assert(places.to_set().subset_of(all)) by {
        assert forall|x: int| places.to_set().contains(x) implies all.contains(x) by {
            let q = choose|q: int| 0 <= q < places.len() && places[q] == x;
            assert(order[q] < n);
        }
    }
    vstd::set_lib::lemma_subset_equality(places.to_set(), all);
    assert(all.contains(j));
    assert(places.to_set().contains(j));
    let q = choose|q: int| 0 <= q < places.len() && places[q] == j;
    assert(order[q] == j);
}

/// Of two entry orders of the same entries, neither puts a later entry at a
/// place than the other does.
pub proof fn lemma_order_at_most(
    first: Seq<usize>,
    second: Seq<usize>,
    entries: Seq<RawEntry>,
    i: int,
)
    requires
        is_entry_order(first, entries),
        is_entry_order(second, entries),
        0 <= i < entries.len(),
    ensures
        entry_le(entries[first[i] as int], entries[second[i] as int]),
{
    let n = entries.len() as int;
    let here = entries[first[i] as int];
    let there = entries[second[i] as int];
    if !entry_le(here, there) {
        lemma_entry_le_total(here, there);
        let upto = Seq::new((i + 1) as nat, |p: int| second[p] as int);
        let below = Seq::new(i as nat, |q: int| first[q] as int);
        assert(upto.no_duplicates()) by {
            assert forall|a: int, b: int| 0 <= a <= i && 0 <= b <= i && a != b implies upto[a]
                != upto[b] by {
                if a < b {
                    assert(second[a] != second[b]);
                } else {
                    assert(second[b] != second[a]);
                }
            }
        }
        upto.unique_seq_to_set();
        below.lemma_cardinality_of_set();
        vstd::seq_lib::seq_to_set_is_finite(below);
        assert(upto.to_set().subset_of(below.to_set())) by {
            assert forall|x: int| upto.to_set().contains(x) implies below.to_set().contains(x) by {
                let p = choose|p: int| 0 <= p < upto.len() && upto[p] == x;
                assert(second[p] < n);
                let mine = entries[second[p] as int];
                if p < i {
                    assert(entry_le(entries[second[p] as int], entries[second[i] as int]));
                } else {
                    lemma_entry_le_total(there, there);
                }
                assert(entry_le(mine, there));
                lemma_order_names_every_place(first, entries, x);
                let q = choose|q: int| 0 <= q < first.len() && #[trigger] first[q] == x;
                if q >= i {
                    if q > i {
                        assert(entry_le(entries[first[i] as int], entries[first[q] as int]));
                    } else {
                        lemma_entry_le_total(here, here);
                    }
                    lemma_entry_le_transitive(here, mine, there);
                }
                assert(below[q] == x);
            }
        }
        vstd::set_lib::lemma_len_subset(upto.to_set(), below.to_set());
    }
}

/// The order of a listing is fixed by the entries: any two entry orders of the
/// same entries put entries of the same name and metadata at each place.
pub proof fn lemma_entry_order_is_one(
    first: Seq<usize>,
    second: Seq<usize>,
    entries: Seq<RawEntry>,
    i: int,
)
    requires
        is_entry_order(first, entries),
        is_entry_order(second, entries),
        0 <= i < entries.len(),
    ensures
        entries[first[i] as int].name@ == entries[second[i] as int].name@,
        entries[first[i] as int].meta == entries[second[i] as int].meta,
{
    lemma_order_at_most(first, second, entries, i);
    lemma_order_at_most(second, first, entries, i);
    lemma_entry_le_antisymmetric(entries[first[i] as int], entries[second[i] as int]);
}

/// The order of a listing does not depend on the order of reading: where
/// `other` holds the entries of `entries` in another order (`moved` says which
/// entry went where), the two listings show entries of the same name and
/// metadata at each place.
pub proof fn lemma_order_is_by_entries(
    entries: Seq<RawEntry>,
    other: Seq<RawEntry>,
    moved: Seq<usize>,
    first: Seq<usize>,
    second: Seq<usize>,
    i: int,
)
    requires
        other.len() == entries.len(),
        moved.len() == entries.len(),
        forall|a: int| 0 <= a < moved.len() ==> (#[trigger] moved[a]) < entries.len(),
        forall|a: int, b: int| 0 <= a < b < moved.len() ==> #[trigger] moved[a] != #[trigger] moved[b],
        forall|a: int| 0 <= a < other.len() ==> #[trigger] other[a] == entries[moved[a] as int],
        is_entry_order(first, entries),
        is_entry_order(second, other),
        0 <= i < entries.len(),
    ensures
        entries[first[i] as int].name@ == other[second[i] as int].name@,
        entries[first[i] as int].meta == other[second[i] as int].meta,
{
    let n = entries.len();
    let through = Seq::new(n, |a: int| moved[second[a] as int]);
    assert(is_entry_order(through, entries)) by {
        assert forall|a: int| 0 <= a < n implies (#[trigger] through[a]) < n by {
            assert(second[a] < n);
        }
        assert forall|a: int, b: int| 0 <= a < b < n implies #[trigger] through[a]
            != #[trigger] through[b] && entry_le(
            entries[through[a] as int],
            entries[through[b] as int],
        ) by {
            assert(second[a] != second[b]);
            assert(second[a] < n && second[b] < n);
            if second[a] < second[b] {
                assert(moved[second[a] as int] != moved[second[b] as int]);
            } else {
                assert(moved[second[b] as int] != moved[second[a] as int]);
            }
            assert(entry_le(other[second[a] as int], other[second[b] as int]));
            assert(other[second[a] as int] == entries[moved[second[a] as int] as int]);
            assert(other[second[b] as int] == entries[moved[second[b] as int] as int]);
        }
    }
    lemma_entry_order_is_one(first, through, entries, i);
    assert(second[i] < n);
    assert(other[second[i] as int] == entries[moved[second[i] as int] as int]);
}

/// Whether `items` are the rows of a listing of `dir` with the entries
/// `entries`: one row for each entry, the entries ascending by name whatever
/// the order in which they were read, and before them, in any directory but
/// the root, the row of the parent.
pub open spec fn is_listing_of(
    items: Seq<FileItem>,
    dir: ResolvedPath,
    entries: Seq<RawEntry>,
) -> bool {
    &&& items.len() == entries.len() + parent_rows(dir)
    &&& parent_rows(dir) == 1 ==> is_parent_item(items[0])
    &&& exists|order: Seq<usize>|
        {
            &&& #[trigger] is_entry_order(order, entries)
            &&& forall|i: int|
                0 <= i < entries.len() ==> is_item_of(
                    #[trigger] items[i + parent_rows(dir)],
                    entries[order[i] as int],
                )
        }
}

/// Whether the metadata `x` stands at or before `y`.
pub fn meta_at_or_before(x: Option<EntryMeta>, y: Option<EntryMeta>) -> (r: bool)
    ensures
        r == meta_le(x, y),
{
    match (x, y) {
        (None, _) => true,
        (Some(_), None) => false,
        (Some(m), Some(n)) => if m.is_dir != n.is_dir {
            !m.is_dir
        } else if m.len != n.len {
            m.len < n.len
        } else {
            m.modified <= n.modified
        },
    }
}

/// Whether the entry `a` stands at or before `b` in a listing.
pub fn entry_at_or_before(a: &RawEntry, b: &RawEntry) -> (r: bool)
    ensures
        r == entry_le(*a, *b),
{
    if str_eq(a.name.as_str(), b.name.as_str()) {
        meta_at_or_before(a.meta, b.meta)
    } else {
        name_at_or_before(a.name.as_str(), b.name.as_str())
    }
}

/// The ascending order of the entries: for each place of the listing, the
/// place of its entry among those that were read.
pub fn sorted_order(entries: &Vec<RawEntry>) -> (order: Vec<usize>)
    ensures
        is_entry_order(order@, entries@),
{
    let ghost all = entries@;
    let mut order: Vec<usize> = Vec::new();
    let mut k: usize = 0;
    while k < entries.len()
        invariant
            k <= entries@.len(),
            all == entries@,
            orders_first(order@, all, k as int),
        decreases entries@.len() - k,
    {
        let fresh = &entries[k];
        let mut pos: usize = 0;
        while pos < order.len() && entry_at_or_before(&entries[order[pos]], fresh)
            invariant
                k < entries@.len(),
                all == entries@,
                orders_first(order@, all, k as int),
                *fresh == all[k as int],
                pos <= order@.len(),
                forall|j: int| 0 <= j < pos ==> entry_le(all[(#[trigger] order@[j]) as int], all[k as int]),
            decreases order@.len() - pos,
        {
            pos += 1;
        }
        let ghost before = order@;
        order.insert(pos, k);
        proof {
            let after = order@;
            before.insert_ensures(pos as int, k);
            assert forall|j: int| pos < j < after.len() implies entry_le(
                all[k as int],
                all[(#[trigger] after[j]) as int],
            ) by {
                assert(after[j] == before[j - 1]);
                let at = all[before[pos as int] as int];
                let later = all[before[j - 1] as int];
                lemma_entry_le_total(at, all[k as int]);
                if j - 1 > pos {
                    assert(entry_le(at, later));
                } else {
                    lemma_entry_le_total(at, at);
                }
                lemma_entry_le_transitive(all[k as int], at, later);
            }
            assert forall|i: int, j: int| 0 <= i < j < k + 1 implies #[trigger] after[i]
                != #[trigger] after[j] && entry_le(all[after[i] as int], all[after[j] as int]) by {
                if i < pos {
                    assert(after[i] == before[i]);
                }
                if i > pos {
                    assert(after[i] == before[i - 1]);
                }
                if j < pos {
                    assert(after[j] == before[j]);
                }
                if j > pos {
                    assert(after[j] == before[j - 1]);
                }
            }
            assert forall|i: int| 0 <= i < k + 1 implies (#[trigger] after[i]) < k + 1 by {
                if i < pos {
                    assert(after[i] == before[i]);
                }
                if i > pos {
                    assert(after[i] == before[i - 1]);
                }
            }
        }
        k += 1;
    }
    order
}

/// The rows of a listing of `dir`, whose entries were read as `entries`.
pub fn directory_rows(dir: &ResolvedPath, entries: &Vec<RawEntry>) -> (items: Vec<FileItem>)
    ensures
        is_listing_of(items@, *dir, entries@),
{
    let mut items: Vec<FileItem> = Vec::new();
    if !dir.is_root() {
        items.push(
            FileItem {
                name: "../".to_owned(),
                link: "../".to_owned(),
                date: String::new(),
                size: String::new(),
            },
        );
    }
    let order = sorted_order(entries);
    let ghost off = parent_rows(*dir);
    let mut i: usize = 0;
    while i < entries.len()
        invariant
            i <= entries@.len(),
            off == parent_rows(*dir),
            items@.len() == i + off,
            off == 1 ==> is_parent_item(items@[0]),
            is_entry_order(order@, entries@),
            forall|j: int|
                0 <= j < i ==> is_item_of(#[trigger] items@[j + off], entries@[order@[j] as int]),
        decreases entries@.len() - i,
    {
        let entry = &entries[order[i]];
        let encoded = percent_encode(entry.name.as_str());
        let date = match entry.meta {
            Some(m) => local_time_text(m.modified),
            None => None,
        };
        let item = listing_item(entry.name.as_str(), entry.meta, encoded, date);
        let ghost before = items@;
        items.push(item);
        proof {
            assert forall|j: int| 0 <= j < i + 1 implies is_item_of(
                #[trigger] items@[j + off],
                entries@[order@[j] as int],
            ) by {
                if j < i {
                    assert(items@[j + off] == before[j + off]);
                }
            }
        }
        i += 1;
    }
    items
}

/// The listing of `dir` from what reading the directory gave: its entries, or
/// nothing where it could not be read, which fails with `ListingFailed`.
pub fn directory_page(
    dir: &ResolvedPath,
    read: Option<&Vec<RawEntry>>,
) -> (r: Result<Vec<FileItem>, GatewayError>)
    ensures
        match r {
            Ok(items) => read is Some && is_listing_of(items@, *dir, read->0@),
            Err(e) => read is None && e is ListingFailed,
        },
{
    match read {
        Some(entries) => Ok(directory_rows(dir, entries)),
        None => Err(GatewayError::ListingFailed),
    }
}

/// The URL that the upload script of a listing posts to: the public host, `/`
/// and the directory's path below the root.
pub fn upload_endpoint(host: &str, dir: &ResolvedPath) -> (r: String)
    ensures
        r@ == host@ + "/"@ + crate::path::relative_of(dir.segments()),
{
    let mut out = host.to_owned();
    out.append("/");
    let rel = dir.relative();
    out.append(rel.as_str());
    out
}

/// Where the serving of a path stands: which answer of the file system it
/// waits for.
#[derive(Clone, Copy, Debug, PartialEq, Eq, Structural)]
pub enum ServePhase {
    /// Waiting to learn what the path names.
    Stat,
    /// Waiting to learn whether the directory holds an index file.
    IndexProbe,
    /// Waiting for the index file's bytes.
    IndexRead,
    /// Waiting for the directory's entries.
    Listing,
    /// Waiting for the file's bytes.
    FileRead,
    /// The response was decided.
    Done,
}

/// An answer of the file system.
#[derive(Clone, Copy, Debug, PartialEq, Eq, Structural)]
pub enum ServeEvent {
    /// Nothing is at the path.
    Missing,
    /// The path, with its links followed, names something outside the root.
    Outside,
    /// The path names a directory.
    Directory,
    /// The path names a file.
    File,
    /// The directory holds an index file.
    IndexPresent,
    /// The directory holds no index file.
    IndexAbsent,
    /// What was asked for was read.
    Loaded,
    /// What was asked for could not be read.
    Failed,
}

/// What a response carries.
#[derive(Clone, Copy, Debug, PartialEq, Eq, Structural)]
pub enum Body {
    /// Nothing.
    Empty,
    /// The bytes of the directory's index file, as HTML.
    Index,
    /// The page rendered from the directory's rows, as HTML.
    Listing,
    /// The file's bytes, under the content type of its extension.
    File,
}

/// What to do next.
#[derive(Clone, Copy, Debug, PartialEq, Eq, Structural)]
pub enum ServeAction {
    /// Ask what the target names.
    Stat,
    /// Ask whether the index path names a file.
    ProbeIndex,
    /// Read the index file.
    ReadIndex,
    /// Read the target's entries.
    ListDirectory,
    /// Read the target's bytes.
    ReadFile,
    /// Answer with this status and body.
    Respond(u16, Body),
}

/// The decision table of serving: from where it stands and what the file
/// system answered, to where it stands next and what to do. A directory with
/// an index file is served as that file; any other directory as a listing. A
/// path that names nothing or leads outside the root, a directory that cannot
/// be listed and a file that cannot be read give 404, an index file that cannot be read gives 500, and so
/// does an answer that was not asked for.
pub open spec fn serve_next(phase: ServePhase, event: ServeEvent) -> (ServePhase, ServeAction) {
    match (phase, event) {
        (ServePhase::Stat, ServeEvent::Missing) | (ServePhase::Stat, ServeEvent::Outside) => (
            ServePhase::Done,
            ServeAction::Respond(404, Body::Empty),
        ),
        (ServePhase::Stat, ServeEvent::Directory) => (
            ServePhase::IndexProbe,
            ServeAction::ProbeIndex,
        ),
        (ServePhase::Stat, ServeEvent::File) => (ServePhase::FileRead, ServeAction::ReadFile),
        (ServePhase::IndexProbe, ServeEvent::IndexPresent) => (
            ServePhase::IndexRead,
            ServeAction::ReadIndex,
        ),
        (ServePhase::IndexProbe, ServeEvent::IndexAbsent) => (
            ServePhase::Listing,
            ServeAction::ListDirectory,
        ),
        (ServePhase::IndexRead, ServeEvent::Loaded) => (
            ServePhase::Done,
            ServeAction::Respond(200, Body::Index),
        ),
        (ServePhase::IndexRead, ServeEvent::Failed) => (
            ServePhase::Done,
            ServeAction::Respond(500, Body::Empty),
        ),
        (ServePhase::Listing, ServeEvent::Loaded) => (
            ServePhase::Done,
            ServeAction::Respond(200, Body::Listing),
        ),
        (ServePhase::Listing, ServeEvent::Failed) => (
            ServePhase::Done,
            ServeAction::Respond(404, Body::Empty),
        ),
        (ServePhase::FileRead, ServeEvent::Loaded) => (
            ServePhase::Done,
            ServeAction::Respond(200, Body::File),
        ),
        (ServePhase::FileRead, ServeEvent::Failed) => (
            ServePhase::Done,
            ServeAction::Respond(404, Body::Empty),
        ),
        _ => (ServePhase::Done, ServeAction::Respond(500, Body::Empty)),
    }
}

/// What serving one request path reads: the target under the root, the index
/// file that would replace a listing of it, and the content type of the target
/// as a file, which goes by the target's own name: one file has one type,
/// whatever path led to it.
pub struct ServePlan {
    target: ResolvedPath,
    index: ResolvedPath,
    mime: &'static str,
}

impl ServePlan {
    /// The names of the target below the root.
    pub closed spec fn target_names(&self) -> Seq<Seq<char>> {
        self.target.segments()
    }

    /// The root that the target lies under.
    pub closed spec fn root(&self) -> Seq<char> {
        self.target.root()
    }

    /// The content type of the target as a file.
    pub closed spec fn mime(&self) -> Seq<char> {
        self.mime@
    }

    /// The plan reads under its root only, and its index file lies directly
    /// inside the target.
    pub closed spec fn wf(&self) -> bool {
        &&& self.target.wf()
        &&& self.index.wf()
        &&& self.index.root() == self.target.root()
        &&& self.index.segments() == self.target.segments().push("index.html"@)
    }

    /// The target, for the listing and for the file system.
    pub fn target(&self) -> (p: &ResolvedPath)
        ensures
            p.segments() == self.target_names(),
            p.root() == self.root(),
            self.wf() ==> p.wf(),
    {
        &self.target
    }

    /// The path of the target in the file system.
    pub fn target_path(&self) -> (p: String)
        ensures
            p@ == self.root() + joined(self.target_names()),
    {
        self.target.full_path()
    }

    /// The path of the index file in the file system.
    pub fn index_path(&self) -> (p: String)
        ensures
            self.wf() ==> p@ == self.root() + joined(self.target_names().push("index.html"@)),
    {
        self.index.full_path()
    }

    /// The content type under which `body` is sent, if it has one.
    pub fn content_type(&self, body: Body) -> (t: Option<&'static str>)
        ensures
            match body {
                Body::Empty => t is None,
                Body::Index | Body::Listing => t is Some && t->0@ == "text/html"@,
                Body::File => t is Some && t->0@ == self.mime(),
            },
    {
        match body {
            Body::Empty => None,
            Body::Index | Body::Listing => Some("text/html"),
            Body::File => Some(self.mime),
        }
    }
}

/// Begins to serve the request path `path` under `wwwroot`.
///
/// A path that leaves the root, or holds a forbidden character, is refused
/// with `InvalidPath` before anything is read. For any other path the plan
/// names the target under the root, and serving starts by asking what it is
/// (`ServePhase::Stat`, `ServeAction::Stat`).
pub fn serve_files(path: &str, wwwroot: &str) -> (r: Result<ServePlan, GatewayError>)
    ensures
        match r {
            Ok(plan) => resolvable(path@) && plan.wf() && plan.root() == wwwroot@
                && plan.target_names() == resolved_names(path@) && plan.mime() == mime_of_names(
                resolved_names(path@),
            ),
            Err(e) => !resolvable(path@) && e is InvalidPath,
        },
{
    let target = match resolve(wwwroot, path) {
        Ok(t) => t,
        Err(e) => {
            return Err(e);
        },
    };
    proof {
        reveal_strlit("index.html");
        let name = "index.html"@;
        assert(name.len() == 10);
        assert(!name.contains('/'));
        assert(!name.contains('\0'));
    }
    let mime = match target.file_name() {
        Some(name) => mime_of_name(name.as_str()),
        None => "application/octet-stream",
    };
    match target.child("index.html") {
        Ok(index) => Ok(ServePlan { target, index, mime }),
        Err(e) => Err(e),
    }
}

/// One decision of serving, by the table `serve_next`.
pub fn serve_step(phase: ServePhase, event: ServeEvent) -> (r: (ServePhase, ServeAction))
    ensures
        r == serve_next(phase, event),
{
    match (phase, event) {
        (ServePhase::Stat, ServeEvent::Missing) | (ServePhase::Stat, ServeEvent::Outside) => (
            ServePhase::Done,
            ServeAction::Respond(404, Body::Empty),
        ),
        (ServePhase::Stat, ServeEvent::Directory) => (
            ServePhase::IndexProbe,
            ServeAction::ProbeIndex,
        ),
        (ServePhase::Stat, ServeEvent::File) => (ServePhase::FileRead, ServeAction::ReadFile),
        (ServePhase::IndexProbe, ServeEvent::IndexPresent) => (
            ServePhase::IndexRead,
            ServeAction::ReadIndex,
        ),
        (ServePhase::IndexProbe, ServeEvent::IndexAbsent) => (
            ServePhase::Listing,
            ServeAction::ListDirectory,
        ),
        (ServePhase::IndexRead, ServeEvent::Loaded) => (
            ServePhase::Done,
            ServeAction::Respond(200, Body::Index),
        ),
        (ServePhase::IndexRead, ServeEvent::Failed) => (
            ServePhase::Done,
            ServeAction::Respond(500, Body::Empty),
        ),
        (ServePhase::Listing, ServeEvent::Loaded) => (
            ServePhase::Done,
            ServeAction::Respond(200, Body::Listing),
        ),
        (ServePhase::Listing, ServeEvent::Failed) => (
            ServePhase::Done,
            ServeAction::Respond(404, Body::Empty),
        ),
        (ServePhase::FileRead, ServeEvent::Loaded) => (
            ServePhase::Done,
            ServeAction::Respond(200, Body::File),
        ),
        (ServePhase::FileRead, ServeEvent::Failed) => (
            ServePhase::Done,
            ServeAction::Respond(404, Body::Empty),
        ),
        _ => (ServePhase::Done, ServeAction::Respond(500, Body::Empty)),
    }
}

/// Nothing is sent that was not read: a response carries a body only as the
/// answer to `Loaded`, and then with status 200; and once a response was
/// decided, serving stays done.
pub proof fn lemma_body_only_after_load(phase: ServePhase, event: ServeEvent)
    ensures
        match serve_next(phase, event).1 {
            ServeAction::Respond(status, body) => serve_next(phase, event).0 == ServePhase::Done
                && (body != Body::Empty ==> event == ServeEvent::Loaded && status == 200),
            _ => serve_next(phase, event).0 != ServePhase::Done,
        },
        phase == ServePhase::Done ==> serve_next(phase, event).0 == ServePhase::Done,
{
}

} // verus!
