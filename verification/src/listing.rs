//! Directory listings: the entries of a directory in a fixed order, with
//! their links and sizes, ready to be rendered.

use vstd::prelude::*;
use vstd::relations::total_ordering;
use vstd::seq_lib::lemma_sorted_unique;
use crate::filter::{allowed, name_allowed, pattern_compiles, pattern_matches, NameFilter};
use crate::text::{
    lemma_bytes_le_total, lemma_bytes_le_transitive, lemma_text_le_antisymmetric, str_le, text_le,
};
use crate::units::{size_text, size_with_unit};
use crate::url::{url_of, url_path};

verus! {

/// One entry of a directory, as the filesystem reports it.
#[derive(Clone, Debug, PartialEq, Eq)]
pub struct RawEntry {
    pub name: String,
    pub is_directory: bool,
    pub length: u64,
}

/// The model of [`RawEntry`] that contracts speak of: texts are sequences of
/// characters, vectors are sequences.
pub struct RawEntryModel {
    pub name: Seq<char>,
    pub is_directory: bool,
    pub length: u64,
}

impl DeepView for RawEntry {
    type V = RawEntryModel;

    open spec fn deep_view(&self) -> RawEntryModel {
        RawEntryModel { name: self.name@, is_directory: self.is_directory, length: self.length }
    }
}

/// The order of a listing: ascending by name, byte by byte. A directory
/// holds no two entries of one name; were two given, files come before
/// directories and shorter files before longer ones, so that the order
/// never depends on the order in which the entries were read.
pub open spec fn entry_le(a: RawEntryModel, b: RawEntryModel) -> bool {
    if a.name != b.name {
        text_le(a.name, b.name)
    } else if a.is_directory != b.is_directory {
        !a.is_directory
    } else {
        a.length <= b.length
    }
}

/// `entry_le` as a relation.
pub open spec fn entry_order() -> spec_fn(RawEntryModel, RawEntryModel) -> bool {
    |a: RawEntryModel, b: RawEntryModel| entry_le(a, b)
}

/// Whether a sequence of entries is in listing order.
pub open spec fn in_order(entries: Seq<RawEntryModel>) -> bool {
    forall|i: int, j: int| 0 <= i < j < entries.len() ==> entry_le(entries[i], entries[j])
}

proof fn lemma_entry_le_transitive(a: RawEntryModel, b: RawEntryModel, c: RawEntryModel)
    requires
        entry_le(a, b),
        entry_le(b, c),
    ensures
        entry_le(a, c),
{
    if a.name != b.name && b.name != c.name {
        lemma_bytes_le_transitive(
            vstd::utf8::encode_utf8(a.name),
            vstd::utf8::encode_utf8(b.name),
            vstd::utf8::encode_utf8(c.name),
        );
        if a.name == c.name {
            lemma_text_le_antisymmetric(a.name, b.name);
        }
    }
}

proof fn lemma_entry_le_total(a: RawEntryModel, b: RawEntryModel)
    ensures
        entry_le(a, b) || entry_le(b, a),
{
    lemma_bytes_le_total(vstd::utf8::encode_utf8(a.name), vstd::utf8::encode_utf8(b.name));
}

proof fn lemma_entry_le_antisymmetric(a: RawEntryModel, b: RawEntryModel)
    requires
        entry_le(a, b),
        entry_le(b, a),
    ensures
        a == b,
{
    if a.name != b.name {
        lemma_text_le_antisymmetric(a.name, b.name);
    }
}

/// The listing order is a total order.
pub proof fn lemma_entry_order_total()
    ensures
        total_ordering(entry_order()),
{
    let r = entry_order();
    assert forall|x: RawEntryModel| #[trigger] r(x, x) by {
        lemma_entry_le_total(x, x);
    }
    assert forall|x: RawEntryModel, y: RawEntryModel| #[trigger] r(x, y) && #[trigger] r(
        y,
        x,
    ) implies x == y by {
        lemma_entry_le_antisymmetric(x, y);
    }
    assert forall|x: RawEntryModel, y: RawEntryModel, z: RawEntryModel| #[trigger]
        r(x, y) && #[trigger] r(y, z) implies r(x, z) by {
        lemma_entry_le_transitive(x, y, z);
    }
    assert forall|x: RawEntryModel, y: RawEntryModel| #[trigger] r(x, y) || #[trigger] r(
        y,
        x,
    ) by {
        lemma_entry_le_total(x, y);
    }
}

/// Whether `a` comes before or equals `b` in listing order.
pub fn entry_before(a: &RawEntry, b: &RawEntry) -> (before: bool)
    ensures
        before == entry_le(a.deep_view(), b.deep_view()),
{
    let forth = str_le(a.name.as_str(), b.name.as_str());
    let back = str_le(b.name.as_str(), a.name.as_str());
    proof {
        if forth && back {
            lemma_text_le_antisymmetric(a.name@, b.name@);
        }
        if a.name@ == b.name@ {
            lemma_bytes_le_total(
                vstd::utf8::encode_utf8(a.name@),
                vstd::utf8::encode_utf8(b.name@),
            );
        }
    }
    if forth && back {
        if a.is_directory != b.is_directory {
            !a.is_directory
        } else {
            a.length <= b.length
        }
    } else {
        forth
    }
}

/// Where `entry` belongs among entries that are in order: behind all that
/// come before it or equal it, and in front of all others.
fn position_of(sorted: &Vec<RawEntry>, entry: &RawEntry) -> (at: usize)
    requires
        in_order(sorted.deep_view()),
    ensures
        at <= sorted.len(),
        forall|k: int| 0 <= k < at ==> entry_le(#[trigger] sorted.deep_view()[k], entry.deep_view()),
        forall|k: int|
            at <= k < sorted.len() ==> !entry_le(
                #[trigger] sorted.deep_view()[k],
                entry.deep_view(),
            ),
{
    let mut low: usize = 0;
    let mut high: usize = sorted.len();
    while low < high
        invariant
            low <= high <= sorted.len(),
            in_order(sorted.deep_view()),
            forall|k: int|
                0 <= k < low ==> entry_le(#[trigger] sorted.deep_view()[k], entry.deep_view()),
            forall|k: int|
                high <= k < sorted.len() ==> !entry_le(
                    #[trigger] sorted.deep_view()[k],
                    entry.deep_view(),
                ),
        decreases high - low,
    {
        let middle = low + (high - low) / 2;
        let ghost pivot = sorted.deep_view()[middle as int];
        if entry_before(&sorted[middle], entry) {
            assert forall|k: int| 0 <= k < middle + 1 implies entry_le(
                #[trigger] sorted.deep_view()[k],
                entry.deep_view(),
            ) by {
                if k < middle {
                    lemma_entry_le_transitive(sorted.deep_view()[k], pivot, entry.deep_view());
                }
            }
            low = middle + 1;
        } else {
            assert forall|k: int| middle <= k < sorted.len() implies !entry_le(
                #[trigger] sorted.deep_view()[k],
                entry.deep_view(),
            ) by {
                if k > middle && entry_le(sorted.deep_view()[k], entry.deep_view()) {
                    lemma_entry_le_transitive(pivot, sorted.deep_view()[k], entry.deep_view());
                }
            }
            high = middle;
        }
    }
    low
}

/// Puts the entries of a directory into listing order.
pub fn sort_entries(raw: Vec<RawEntry>) -> (sorted: Vec<RawEntry>)
    ensures
        sorted.deep_view() == raw.deep_view().sort_by(entry_order()),
{
    let ghost all = raw.deep_view();
    let mut rest = raw;
    let mut sorted: Vec<RawEntry> = Vec::new();
    assert(sorted.deep_view().to_multiset().add(rest.deep_view().to_multiset())
        =~= all.to_multiset()) by {
        broadcast use vstd::seq_lib::group_to_multiset_ensures;
        assert(sorted.deep_view() =~= Seq::<RawEntryModel>::empty());
    }
    loop
        invariant
            in_order(sorted.deep_view()),
            sorted.deep_view().to_multiset().add(rest.deep_view().to_multiset())
                == all.to_multiset(),
        ensures
            rest.len() == 0,
        decreases rest.len(),
    {
        let ghost before_rest = rest.deep_view();
        let ghost before_sorted = sorted.deep_view();
        match rest.pop() {
            None => {
                break ;
            },
            Some(entry) => {
                let at = position_of(&sorted, &entry);
                let ghost item = entry.deep_view();
                sorted.insert(at, entry);
                proof {
                    broadcast use vstd::seq_lib::group_to_multiset_ensures;

                    assert(sorted.deep_view() =~= before_sorted.insert(at as int, item));
                    assert(before_rest =~= rest.deep_view().push(item));
                    lemma_insert_keeps_order(before_sorted, at as int, item);
                }
            },
        }
    }
    proof {
        broadcast use vstd::seq_lib::group_to_multiset_ensures;

        let order = entry_order();
        lemma_entry_order_total();
        all.lemma_sort_by_ensures(order);
        assert(sorted.deep_view().to_multiset() =~= all.to_multiset());
        lemma_sorted_unique(sorted.deep_view(), all.sort_by(order), order);
    }
    sorted
}

/// Inserting an entry behind those that come before it, and in front of
/// one that does not, keeps a sequence in order.
proof fn lemma_insert_keeps_order(entries: Seq<RawEntryModel>, at: int, item: RawEntryModel)
    requires
        in_order(entries),
        0 <= at <= entries.len(),
        forall|k: int| 0 <= k < at ==> entry_le(#[trigger] entries[k], item),
        at < entries.len() ==> !entry_le(entries[at], item),
    ensures
        in_order(entries.insert(at, item)),
{
    let grown = entries.insert(at, item);
    assert forall|i: int, j: int| 0 <= i < j < grown.len() implies entry_le(
        grown[i],
        grown[j],
    ) by {
        if i == at {
            lemma_entry_le_total(entries[at], item);
            if j - 1 > at {
                lemma_entry_le_transitive(item, entries[at], entries[j - 1]);
            }
        }
    }
}

/// One line of a listing.
#[derive(Clone, Debug, PartialEq, Eq)]
pub struct DirectoryEntry {
    pub name: String,
    pub relative_url: String,
    pub size_bytes: u64,
    pub is_parent_marker: bool,
}

/// The model of [`DirectoryEntry`] that contracts speak of: texts are sequences of
/// characters, vectors are sequences.
pub struct DirectoryEntryModel {
    pub name: Seq<char>,
    pub relative_url: Seq<char>,
    pub size_bytes: u64,
    pub is_parent_marker: bool,
}

impl DeepView for DirectoryEntry {
    type V = DirectoryEntryModel;

    open spec fn deep_view(&self) -> DirectoryEntryModel {
        DirectoryEntryModel {
            name: self.name@,
            relative_url: self.relative_url@,
            size_bytes: self.size_bytes,
            is_parent_marker: self.is_parent_marker,
        }
    }
}

/// The name under which the parent directory is listed.
pub open spec fn parent_name() -> Seq<char> {
    seq!['.', '.']
}

/// The path above `relative`: all but its last segment.
pub open spec fn above(relative: Seq<Seq<char>>) -> Seq<Seq<char>> {
    if relative.len() > 0 {
        relative.drop_last()
    } else {
        relative
    }
}

/// The entry that leads from the directory requested as `relative` (its
/// path below the root) to the one above it.
pub open spec fn parent_entry(relative: Seq<Seq<char>>) -> DirectoryEntryModel {
    DirectoryEntryModel {
        name: parent_name(),
        relative_url: url_path(above(relative)),
        size_bytes: 0,
        is_parent_marker: true,
    }
}

/// The parent marker of a listing: a directory below the root has one, the
/// root has none.
pub open spec fn parent_part(relative: Seq<Seq<char>>, below_root: bool) -> Seq<
    DirectoryEntryModel,
> {
    if below_root {
        seq![parent_entry(relative)]
    } else {
        Seq::empty()
    }
}

/// The line for an entry of the directory at `relative`: its link leads
/// below the root, and a sub-directory is given the size zero.
pub open spec fn child_entry(relative: Seq<Seq<char>>, entry: RawEntryModel)
    -> DirectoryEntryModel {
    DirectoryEntryModel {
        name: entry.name,
        relative_url: url_path(relative.push(entry.name)),
        size_bytes: if entry.is_directory {
            0
        } else {
            entry.length
        },
        is_parent_marker: false,
    }
}

/// The line for an entry, where the filter lets its name through.
pub open spec fn shown(relative: Seq<Seq<char>>, filter: Option<Seq<char>>) -> spec_fn(
    RawEntryModel,
) -> Option<DirectoryEntryModel> {
    |entry: RawEntryModel|
        if allowed(filter, entry.name) {
            Some(child_entry(relative, entry))
        } else {
            None
        }
}

/// The listing made of entries that are already in order: the parent
/// marker, never filtered, and then the lines of the entries that the
/// filter lets through.
pub open spec fn listing_of(
    relative: Seq<Seq<char>>,
    below_root: bool,
    ordered: Seq<RawEntryModel>,
    filter: Option<Seq<char>>,
) -> Seq<DirectoryEntryModel> {
    parent_part(relative, below_root) + ordered.filter_map(shown(relative, filter))
}

/// The listing of the directory that was requested as `relative`, lies
/// below the root or is the root, and holds the entries `raw`.
pub open spec fn directory_listing(
    relative: Seq<Seq<char>>,
    below_root: bool,
    raw: Seq<RawEntryModel>,
    filter: Option<Seq<char>>,
) -> Seq<DirectoryEntryModel> {
    listing_of(relative, below_root, raw.sort_by(entry_order()), filter)
}

fn parent_marker(relative: &Vec<String>) -> (entry: DirectoryEntry)
    ensures
        entry.deep_view() == parent_entry(relative.deep_view()),
{
    let kept: usize = if relative.len() > 0 {
        relative.len() - 1
    } else {
        0
    };
    let mut up: Vec<String> = Vec::new();
    let mut i: usize = 0;
    while i < kept
        invariant
            i <= kept <= relative.len(),
            up.len() == i,
            forall|j: int| 0 <= j < i ==> up[j]@ == relative[j]@,
        decreases kept - i,
    {
        up.push(relative[i].clone());
        i = i + 1;
    }
    assert(up.deep_view() =~= above(relative.deep_view()));
    proof {
        reveal_strlit("..");
    }
    let name = String::from_str("..");
    assert(name@ =~= parent_name());
    DirectoryEntry {
        name,
        relative_url: url_of(&up, None),
        size_bytes: 0,
        is_parent_marker: true,
    }
}

/// Lists the directory that was requested as `relative`, from its entries
/// in whatever order they were read. Only a directory below the root gets
/// the parent marker.
pub fn list_directory(
    relative: &Vec<String>,
    below_root: bool,
    raw: Vec<RawEntry>,
    filter: &Option<NameFilter>,
) -> (listing: Vec<DirectoryEntry>)
    ensures
        listing.deep_view() == directory_listing(
            relative.deep_view(),
            below_root,
            raw.deep_view(),
            filter.deep_view(),
        ),
{
    let ordered = sort_entries(raw);
    let ghost pick = shown(relative.deep_view(), filter.deep_view());
    let mut listing: Vec<DirectoryEntry> = Vec::new();
    if below_root {
        listing.push(parent_marker(relative));
    }
    assert(listing.deep_view() =~= parent_part(relative.deep_view(), below_root));
    let mut i: usize = 0;
    while i < ordered.len()
        invariant
            i <= ordered.len(),
            pick == shown(relative.deep_view(), filter.deep_view()),
            listing.deep_view() == parent_part(relative.deep_view(), below_root)
                + ordered.deep_view().take(
                i as int,
            ).filter_map(pick),
        decreases ordered.len() - i,
    {
        let entry = &ordered[i];
        let ghost before = listing.deep_view();
        proof {
            ordered.deep_view().lemma_filter_map_take_succ(pick, i as int);
        }
        if name_allowed(filter, entry.name.as_str()) {
            let line = DirectoryEntry {
                name: entry.name.clone(),
                relative_url: url_of(relative, Some(entry.name.as_str())),
                size_bytes: if entry.is_directory {
                    0
                } else {
                    entry.length
                },
                is_parent_marker: false,
            };
            listing.push(line);
            assert(listing.deep_view() =~= before.push(
                child_entry(relative.deep_view(), entry.deep_view()),
            ));
        }
        i = i + 1;
    }
    assert(ordered.deep_view().take(i as int) =~= ordered.deep_view());
    listing
}

/// One row of the rendered page.
#[derive(Clone, Debug, PartialEq, Eq)]
pub struct Row {
    pub url: String,
    pub size: String,
    pub name: String,
}

/// The model of [`Row`] that contracts speak of: texts are sequences of
/// characters, vectors are sequences.
pub struct RowModel {
    pub url: Seq<char>,
    pub size: Seq<char>,
    pub name: Seq<char>,
}

impl DeepView for Row {
    type V = RowModel;

    open spec fn deep_view(&self) -> RowModel {
        RowModel { url: self.url@, size: self.size@, name: self.name@ }
    }
}

/// What a template is rendered with: a title, and the rows in order.
#[derive(Clone, Debug, PartialEq, Eq)]
pub struct Page {
    pub title: String,
    pub content: Vec<Row>,
}

/// The model of [`Page`] that contracts speak of: texts are sequences of
/// characters, vectors are sequences.
pub struct PageModel {
    pub title: Seq<char>,
    pub content: Seq<RowModel>,
}

impl DeepView for Page {
    type V = PageModel;

    open spec fn deep_view(&self) -> PageModel {
        PageModel { title: self.title@, content: self.content.deep_view() }
    }
}

/// The row that shows an entry: its link, its size for display, its name.
pub open spec fn row_of(entry: DirectoryEntryModel) -> RowModel {
    RowModel {
        url: entry.relative_url,
        size: size_text(entry.size_bytes as nat),
        name: entry.name,
    }
}

/// The page that shows a listing under a title.
pub open spec fn page_of(title: Seq<char>, listing: Seq<DirectoryEntryModel>) -> PageModel {
    PageModel { title, content: listing.map_values(|entry: DirectoryEntryModel| row_of(entry)) }
}

/// Lays a listing out as a page.
pub fn page(title: &str, listing: &Vec<DirectoryEntry>) -> (page: Page)
    ensures
        page.deep_view() == page_of(title@, listing.deep_view()),
{
    let mut content: Vec<Row> = Vec::new();
    let mut i: usize = 0;
    while i < listing.len()
        invariant
            i <= listing.len(),
            content.len() == i,
            forall|j: int| 0 <= j < i ==> content[j].deep_view() == row_of(listing[j].deep_view()),
        decreases listing.len() - i,
    {
        let entry = &listing[i];
        content.push(
            Row {
                url: entry.relative_url.clone(),
                size: size_with_unit(entry.size_bytes),
                name: entry.name.clone(),
            },
        );
        i = i + 1;
    }
    let page = Page { title: String::from_str(title), content };
    assert(page.deep_view().content =~= listing.deep_view().map_values(
        |entry: DirectoryEntryModel| row_of(entry),
    ));
    page
}

/// Renders the directory that was requested as `relative` into the page
/// that the template is given.
pub fn render_directory(
    title: &str,
    relative: &Vec<String>,
    below_root: bool,
    raw: Vec<RawEntry>,
    filter: &Option<NameFilter>,
) -> (rendered: Page)
    ensures
        rendered.deep_view() == page_of(
            title@,
            directory_listing(
                relative.deep_view(),
                below_root,
                raw.deep_view(),
                filter.deep_view(),
            ),
        ),
{
    let listing = list_directory(relative, below_root, raw, filter);
    page(title, &listing)
}

/// Entries in listing order have their names in ascending byte order.
proof fn lemma_entry_le_orders_names(a: RawEntryModel, b: RawEntryModel)
    requires
        entry_le(a, b),
    ensures
        text_le(a.name, b.name),
{
    lemma_bytes_le_total(vstd::utf8::encode_utf8(a.name), vstd::utf8::encode_utf8(b.name));
}

/// Whether `line` is the line of one of `entries` that the filter lets
/// through.
pub open spec fn is_line_of(
    line: DirectoryEntryModel,
    relative: Seq<Seq<char>>,
    filter: Option<Seq<char>>,
    entries: Seq<RawEntryModel>,
) -> bool {
    exists|m: int|
        0 <= m < entries.len() && allowed(filter, (#[trigger] entries[m]).name) && line
            == child_entry(relative, entries[m])
}

/// What holds of the lines made from entries that are in order: each is
/// the line of an entry that the filter lets through, each such entry has
/// its line, and the lines are in the order of the entries.
proof fn lemma_lines(
    relative: Seq<Seq<char>>,
    ordered: Seq<RawEntryModel>,
    filter: Option<Seq<char>>,
)
    requires
        in_order(ordered),
    ensures
        ({
            let lines = ordered.filter_map(shown(relative, filter));
            &&& forall|k: int|
                0 <= k < lines.len() ==> is_line_of(#[trigger] lines[k], relative, filter, ordered)
            &&& forall|m: int|
                0 <= m < ordered.len() && allowed(filter, (#[trigger] ordered[m]).name)
                    ==> lines.contains(child_entry(relative, ordered[m]))
            &&& forall|i: int, j: int|
                0 <= i < j < lines.len() ==> text_le(
                    (#[trigger] lines[i]).name,
                    (#[trigger] lines[j]).name,
                )
        }),
    decreases ordered.len(),
{
    let pick = shown(relative, filter);
    let lines = ordered.filter_map(pick);
    if ordered.len() > 0 {
        let rest = ordered.drop_last();
        let last = ordered.last();
        let before = rest.filter_map(pick);
        assert forall|i: int, j: int| 0 <= i < j < rest.len() implies entry_le(
            rest[i],
            rest[j],
        ) by {
            assert(rest[i] == ordered[i] && rest[j] == ordered[j]);
        }
        lemma_lines(relative, rest, filter);
        assert forall|k: int| 0 <= k < lines.len() implies is_line_of(
            #[trigger] lines[k],
            relative,
            filter,
            ordered,
        ) by {
            if k < before.len() {
                assert(lines[k] == before[k]);
                assert(is_line_of(before[k], relative, filter, rest));
                let m = choose|m: int|
                    0 <= m < rest.len() && allowed(filter, (#[trigger] rest[m]).name) && before[k]
                        == child_entry(relative, rest[m]);
                assert(ordered[m] == rest[m]);
            } else {
                assert(lines[k] == child_entry(relative, ordered[ordered.len() - 1]));
            }
        }
        assert forall|m: int|
            0 <= m < ordered.len() && allowed(
                filter,
                (#[trigger] ordered[m]).name,
            ) implies lines.contains(child_entry(relative, ordered[m])) by {
            if m < rest.len() {
                assert(rest[m] == ordered[m]);
                assert(before.contains(child_entry(relative, rest[m])));
                let at = choose|at: int|
                    0 <= at < before.len() && before[at] == child_entry(relative, rest[m]);
                assert(lines[at] == before[at]);
            } else {
                assert(lines[lines.len() - 1] == child_entry(relative, ordered[m]));
            }
        }
        assert forall|i: int, j: int| 0 <= i < j < lines.len() implies text_le(
            (#[trigger] lines[i]).name,
            (#[trigger] lines[j]).name,
        ) by {
            assert(lines[i] == before[i]);
            if j < before.len() {
                assert(lines[j] == before[j]);
            } else {
                assert(is_line_of(before[i], relative, filter, rest));
                let m = choose|m: int|
                    0 <= m < rest.len() && allowed(filter, (#[trigger] rest[m]).name) && before[i]
                        == child_entry(relative, rest[m]);
                assert(rest[m] == ordered[m]);
                assert(entry_le(ordered[m], ordered[ordered.len() - 1]));
                lemma_entry_le_orders_names(ordered[m], last);
            }
        }
    }
}

/// The entries of a directory, sorted, are in listing order and are the
/// entries that were read.
proof fn lemma_sorted_entries(raw: Seq<RawEntryModel>)
    ensures
        in_order(raw.sort_by(entry_order())),
        raw.sort_by(entry_order()).to_multiset() == raw.to_multiset(),
{
    let order = entry_order();
    lemma_entry_order_total();
    raw.lemma_sort_by_ensures(order);
    let ordered = raw.sort_by(order);
    assert forall|i: int, j: int| 0 <= i < j < ordered.len() implies entry_le(
        ordered[i],
        ordered[j],
    ) by {
        assert(order(ordered[i], ordered[j]));
    }
}

/// A listing does not depend on the order in which the directory's entries
/// were read: two readings that hold the same entries give the same lines
/// in the same order, with or without the parent marker alike.
pub proof fn lemma_listing_ignores_reading_order(
    relative: Seq<Seq<char>>,
    below_root: bool,
    first: Seq<RawEntryModel>,
    second: Seq<RawEntryModel>,
    filter: Option<Seq<char>>,
)
    requires
        first.to_multiset() == second.to_multiset(),
    ensures
        directory_listing(relative, below_root, first, filter) == directory_listing(
            relative,
            below_root,
            second,
            filter,
        ),
{
    let order = entry_order();
    lemma_entry_order_total();
    first.lemma_sort_by_ensures(order);
    second.lemma_sort_by_ensures(order);
    lemma_sorted_unique(first.sort_by(order), second.sort_by(order), order);
}

/// The parent marker stands in a listing exactly where the directory lies
/// below the root, and then as its first line and nowhere else. Its link
/// leads to the path above the requested one.
pub proof fn lemma_parent_marker_placement(
    relative: Seq<Seq<char>>,
    below_root: bool,
    raw: Seq<RawEntryModel>,
    filter: Option<Seq<char>>,
)
    ensures
        ({
            let listing = directory_listing(relative, below_root, raw, filter);
            &&& !below_root ==> forall|i: int|
                0 <= i < listing.len() ==> !(#[trigger] listing[i]).is_parent_marker
            &&& below_root ==> {
                &&& listing.len() > 0
                &&& listing[0] == parent_entry(relative)
                &&& forall|i: int|
                    1 <= i < listing.len() ==> !(#[trigger] listing[i]).is_parent_marker
            }
        }),
{
    lemma_sorted_entries(raw);
    let ordered = raw.sort_by(entry_order());
    lemma_lines(relative, ordered, filter);
    let lines = ordered.filter_map(shown(relative, filter));
    let listing = directory_listing(relative, below_root, raw, filter);
    let lead = parent_part(relative, below_root).len();
    assert forall|i: int| lead <= i < listing.len() implies !(#[trigger] listing[i]).is_parent_marker by {
        assert(listing[i] == lines[i - lead]);
        assert(is_line_of(lines[i - lead], relative, filter, ordered));
    }
}

/// Behind the parent marker, the lines of a listing are in ascending byte
/// order of their names.
pub proof fn lemma_listing_is_sorted(
    relative: Seq<Seq<char>>,
    below_root: bool,
    raw: Seq<RawEntryModel>,
    filter: Option<Seq<char>>,
)
    ensures
        ({
            let listing = directory_listing(relative, below_root, raw, filter);
            forall|i: int, j: int|
                0 <= i < j < listing.len() && !(#[trigger] listing[i]).is_parent_marker ==> text_le(
                    listing[i].name,
                    (#[trigger] listing[j]).name,
                )
        }),
{
    lemma_sorted_entries(raw);
    let ordered = raw.sort_by(entry_order());
    lemma_lines(relative, ordered, filter);
    let lines = ordered.filter_map(shown(relative, filter));
    let listing = directory_listing(relative, below_root, raw, filter);
    let lead = parent_part(relative, below_root).len();
    assert forall|i: int, j: int|
        0 <= i < j < listing.len() && !(#[trigger] listing[i]).is_parent_marker implies text_le(
        listing[i].name,
        (#[trigger] listing[j]).name,
    ) by {
        assert(i >= lead);
        assert(listing[i] == lines[i - lead]);
        assert(listing[j] == lines[j - lead]);
    }
}

/// With a filter or without, every line of a listing but the parent marker
/// is the line of an entry that was read and that the filter lets through:
/// where the filter's pattern is a regular expression, the pattern matches
/// the name. And every such entry has its line.
pub proof fn lemma_listing_respects_filter(
    relative: Seq<Seq<char>>,
    below_root: bool,
    raw: Seq<RawEntryModel>,
    filter: Option<Seq<char>>,
)
    ensures
        ({
            let listing = directory_listing(relative, below_root, raw, filter);
            &&& forall|i: int|
                0 <= i < listing.len() && !(#[trigger] listing[i]).is_parent_marker ==> {
                    &&& allowed(filter, listing[i].name)
                    &&& (filter matches Some(pattern) ==> (pattern_compiles(pattern)
                        ==> pattern_matches(pattern, listing[i].name)))
                    &&& is_line_of(listing[i], relative, filter, raw)
                }
            &&& forall|m: int|
                0 <= m < raw.len() && allowed(filter, (#[trigger] raw[m]).name)
                    ==> listing.contains(child_entry(relative, raw[m]))
        }),
{
    broadcast use vstd::seq_lib::group_to_multiset_ensures;

    lemma_sorted_entries(raw);
    let ordered = raw.sort_by(entry_order());
    lemma_lines(relative, ordered, filter);
    let lines = ordered.filter_map(shown(relative, filter));
    let listing = directory_listing(relative, below_root, raw, filter);
    let lead = parent_part(relative, below_root).len();
    assert forall|i: int|
        0 <= i < listing.len() && !(#[trigger] listing[i]).is_parent_marker implies {
        &&& allowed(filter, listing[i].name)
        &&& (filter matches Some(pattern) ==> (pattern_compiles(pattern) ==> pattern_matches(
            pattern,
            listing[i].name,
        )))
        &&& is_line_of(listing[i], relative, filter, raw)
    } by {
        assert(i >= lead);
        assert(listing[i] == lines[i - lead]);
        assert(is_line_of(lines[i - lead], relative, filter, ordered));
        let k = choose|k: int|
            0 <= k < ordered.len() && allowed(filter, (#[trigger] ordered[k]).name) && lines[i
                - lead] == child_entry(relative, ordered[k]);
        assert(ordered.contains(ordered[k]));
        assert(raw.to_multiset().count(ordered[k]) > 0);
        assert(raw.contains(ordered[k]));
        let m = choose|m: int| 0 <= m < raw.len() && raw[m] == ordered[k];
        assert(listing[i] == child_entry(relative, raw[m]));
    }
    assert forall|m: int|
        0 <= m < raw.len() && allowed(filter, (#[trigger] raw[m]).name) implies listing.contains(
        child_entry(relative, raw[m]),
    ) by {
        assert(raw.contains(raw[m]));
        assert(ordered.to_multiset().count(raw[m]) > 0);
        assert(ordered.contains(raw[m]));
        let k = choose|k: int| 0 <= k < ordered.len() && ordered[k] == raw[m];
        assert(lines.contains(child_entry(relative, ordered[k])));
        let at = choose|at: int|
            0 <= at < lines.len() && lines[at] == child_entry(relative, ordered[k]);
        assert(listing[at + lead] == lines[at]);
    }
}

} // verus!
