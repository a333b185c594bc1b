//! The recent-files list shown on the start screen.
//!
//! Every way of reaching a document records it at the front of the list; the
//! same document reached through two spellings collapses into one entry where
//! the file system does not tell them apart; the list keeps at most ten
//! entries; a user who turned the list off gets nothing recorded.
use vstd::prelude::*;
use crate::formats::{
    clear_extension, clear_extension_of, clear_name, detect_format, final_name, format_code, name_extension,
    path_file_name, plain_path, possible_format,
};
use crate::platform::Platform;
use crate::text::{after_last, chars_of, occurs_in, replace_char, replace_char_spec, str_eq, string_from_chars};

verus! {

/// The list lives on the start screen, where it has to stay readable at a
/// glance; ten entries fill it without turning into a scrolling history.
pub const MAX_ENTRIES: usize = 10;

/// A document that was opened, and when (seconds since the Unix epoch).
pub struct RecentEntry {
    pub path: String,
    pub opened_at: u64,
}

/// The stored list and whether recording is on.
pub struct RecentStore {
    pub enabled: bool,
    pub files: Vec<RecentEntry>,
}

/// An entry as the start screen shows it.
pub struct RecentFileView {
    pub path: String,
    pub name: String,
    pub opened_at: u64,
    pub file_type: i32,
}

/// What the start screen is given.
pub struct RecentState {
    pub enabled: bool,
    pub files: Vec<RecentFileView>,
}

/// Recording is on unless the user turned it off.
pub fn enabled_default() -> (r: bool)
    ensures
        r,
{
    true
}

impl Default for RecentStore {
    fn default() -> (r: Self)
        ensures
            r.enabled,
            r.files@.len() == 0,
    {
        RecentStore { enabled: enabled_default(), files: Vec::new() }
    }
}

/// What `str::to_lowercase` makes of the text (Unicode's lower-case mapping,
/// which does not depend on the locale).
pub uninterp spec fn lowercase(s: Seq<char>) -> Seq<char>;

/// `str::to_lowercase`.
#[verifier::external_body]
pub(crate) fn to_lowercase(s: &str) -> (r: String)
    ensures
        r@ == lowercase(s@),
{
    s.to_lowercase()
}

/// The key under which a path is recorded. Windows and macOS ship case
/// insensitive file systems by default, so the same document reached through
/// two spellings must collapse into one entry; on Linux the two spellings
/// really are two files, and a backslash is a legal name character, so
/// nothing is normalized there.
pub open spec fn normalized(value: Seq<char>, platform: Platform) -> Seq<char> {
    match platform {
        Platform::Windows => lowercase(replace_char_spec(value, '\\', '/')),
        Platform::MacOs => lowercase(value),
        Platform::Linux => value,
    }
}

/// The key under which `value` is recorded on `platform`.
pub fn normalize(value: &str, platform: Platform) -> (r: String)
    ensures
        r@ == normalized(value@, platform),
{
    match platform {
        Platform::Windows => {
            let slashed = replace_char(value, '\\', '/');
            to_lowercase(slashed.as_str())
        },
        Platform::MacOs => to_lowercase(value),
        Platform::Linux => string_from_chars(&chars_of(value)),
    }
}

/// The entries as paths and opening times.
pub open spec fn entries_view(files: Seq<RecentEntry>) -> Seq<(Seq<char>, u64)> {
    files.map_values(|e: RecentEntry| (e.path@, e.opened_at))
}

/// The entries whose key differs from `key`, in their order.
pub open spec fn other_keys(files: Seq<(Seq<char>, u64)>, key: Seq<char>, platform: Platform) -> Seq<
    (Seq<char>, u64),
>
    decreases files.len(),
{
    if files.len() == 0 {
        Seq::empty()
    } else {
        other_keys(files.drop_last(), key, platform) + if normalized(files.last().0, platform) != key {
            seq![files.last()]
        } else {
            Seq::empty()
        }
    }
}

/// The list after recording `path`: the new entry first, then every other
/// entry whose key differs, in order, cut to `MAX_ENTRIES`.
pub open spec fn recorded(
    files: Seq<(Seq<char>, u64)>,
    path: Seq<char>,
    opened_at: u64,
    platform: Platform,
) -> Seq<(Seq<char>, u64)> {
    let all = seq![(path, opened_at)] + other_keys(files, normalized(path, platform), platform);
    if all.len() > MAX_ENTRIES {
        all.subrange(0, MAX_ENTRIES as int)
    } else {
        all
    }
}

/// No two entries are recorded under the same key.
pub open spec fn keys_distinct(files: Seq<(Seq<char>, u64)>, platform: Platform) -> bool {
    forall|i: int, j: int|
        0 <= i < j < files.len() ==> normalized(#[trigger] files[i].0, platform) != normalized(
            #[trigger] files[j].0,
            platform,
        )
}

/// What is kept has another key, comes from the list, and keeps the list's
/// distinct keys distinct.
proof fn lemma_other_keys(files: Seq<(Seq<char>, u64)>, key: Seq<char>, platform: Platform)
    ensures
        forall|j: int|
            0 <= j < other_keys(files, key, platform).len() ==> normalized(
                (#[trigger] other_keys(files, key, platform)[j]).0,
                platform,
            ) != key,
        forall|j: int|
            0 <= j < other_keys(files, key, platform).len() ==> files.contains(
                #[trigger] other_keys(files, key, platform)[j],
            ),
        keys_distinct(files, platform) ==> keys_distinct(other_keys(files, key, platform), platform),
        other_keys(files, key, platform).len() <= files.len(),
    decreases files.len(),
{
    if files.len() > 0 {
        let init = files.drop_last();
        lemma_other_keys(init, key, platform);
        let o = other_keys(init, key, platform);
        let tail: Seq<(Seq<char>, u64)> = if normalized(files.last().0, platform) != key {
            seq![files.last()]
        } else {
            Seq::empty()
        };
        let all = other_keys(files, key, platform);
        assert(all == o + tail);
        assert forall|j: int| 0 <= j < all.len() implies files.contains(#[trigger] all[j]) by {
            if j < o.len() {
                assert(all[j] == o[j]);
                assert(init.contains(o[j]));
                let m = choose|m: int| 0 <= m < init.len() && init[m] == o[j];
                assert(files[m] == o[j]);
            } else {
                assert(files[files.len() - 1] == all[j]);
            }
        }
        assert forall|j: int| 0 <= j < all.len() implies normalized(
            (#[trigger] all[j]).0,
            platform,
        ) != key by {
            if j < o.len() {
                assert(all[j] == o[j]);
            }
        }
        if keys_distinct(files, platform) {
            assert(keys_distinct(init, platform)) by {
                assert forall|i: int, j: int| 0 <= i < j < init.len() implies normalized(
                    #[trigger] init[i].0,
                    platform,
                ) != normalized(#[trigger] init[j].0, platform) by {
                    assert(init[i] == files[i] && init[j] == files[j]);
                }
            }
            assert forall|i: int, j: int| 0 <= i < j < all.len() implies normalized(
                #[trigger] all[i].0,
                platform,
            ) != normalized(#[trigger] all[j].0, platform) by {
                assert(all[i] == o[i]);
                if j < o.len() {
                    assert(all[j] == o[j]);
                } else {
                    assert(init.contains(o[i]));
                    let m = choose|m: int| 0 <= m < init.len() && init[m] == o[i];
                    assert(files[m] == o[i]);
                    assert(all[j] == files[files.len() - 1]);
                }
            }
        }
    }
}

/// Keeping the entries whose key differs from `key` goes entry by entry.
proof fn lemma_other_keys_concat(
    a: Seq<(Seq<char>, u64)>,
    b: Seq<(Seq<char>, u64)>,
    key: Seq<char>,
    platform: Platform,
)
    ensures
        other_keys(a + b, key, platform) == other_keys(a, key, platform) + other_keys(b, key, platform),
    decreases b.len(),
{
    if b.len() == 0 {
        assert(a + b =~= a);
        assert(other_keys(a, key, platform) + other_keys(b, key, platform) =~= other_keys(a, key, platform));
    } else {
        lemma_other_keys_concat(a, b.drop_last(), key, platform);
        assert((a + b).drop_last() =~= a + b.drop_last());
        assert((a + b).last() == b.last());
        let tail: Seq<(Seq<char>, u64)> = if normalized(b.last().0, platform) != key {
            seq![b.last()]
        } else {
            Seq::empty()
        };
        assert(other_keys(a, key, platform) + other_keys(b.drop_last(), key, platform) + tail
            =~= other_keys(a, key, platform) + (other_keys(b.drop_last(), key, platform) + tail));
    }
}

/// A list holding no entry under `key` keeps all of its entries.
proof fn lemma_other_keys_none(files: Seq<(Seq<char>, u64)>, key: Seq<char>, platform: Platform)
    requires
        forall|j: int| 0 <= j < files.len() ==> normalized((#[trigger] files[j]).0, platform) != key,
    ensures
        other_keys(files, key, platform) == files,
    decreases files.len(),
{
    if files.len() > 0 {
        lemma_other_keys_none(files.drop_last(), key, platform);
        assert(files.drop_last().push(files.last()) =~= files);
    }
}

/// Recording puts the document first, with its time, and keeps the list
/// within `MAX_ENTRIES`.
pub proof fn law_recorded_first(
    files: Seq<(Seq<char>, u64)>,
    path: Seq<char>,
    opened_at: u64,
    platform: Platform,
)
    ensures
        recorded(files, path, opened_at, platform).len() >= 1,
        recorded(files, path, opened_at, platform)[0] == (path, opened_at),
        recorded(files, path, opened_at, platform).len() <= MAX_ENTRIES,
{
}

/// After recording, the document has exactly one entry (no other entry
/// shares its key), and a list without two entries for one document keeps
/// that property.
pub proof fn law_recorded_keys_distinct(
    files: Seq<(Seq<char>, u64)>,
    path: Seq<char>,
    opened_at: u64,
    platform: Platform,
)
    ensures
        forall|j: int|
            1 <= j < recorded(files, path, opened_at, platform).len() ==> normalized(
                (#[trigger] recorded(files, path, opened_at, platform)[j]).0,
                platform,
            ) != normalized(path, platform),
        keys_distinct(files, platform) ==> keys_distinct(
            recorded(files, path, opened_at, platform),
            platform,
        ),
{
    let k = normalized(path, platform);
    lemma_other_keys(files, k, platform);
    let o = other_keys(files, k, platform);
    let all = seq![(path, opened_at)] + o;
    let r = recorded(files, path, opened_at, platform);
    assert forall|j: int| 1 <= j < r.len() implies normalized((#[trigger] r[j]).0, platform) != k by {
        assert(r[j] == all[j]);
        assert(all[j] == o[j - 1]);
    }
    if keys_distinct(files, platform) {
        assert forall|i: int, j: int| 0 <= i < j < r.len() implies normalized(
            #[trigger] r[i].0,
            platform,
        ) != normalized(#[trigger] r[j].0, platform) by {
            assert(r[i] == all[i] && r[j] == all[j]);
            assert(all[j] == o[j - 1]);
            if i > 0 {
                assert(all[i] == o[i - 1]);
            }
        }
    }
}

/// Opening a document again, under the same spelling or another one with
/// the same key, only moves it to the front with its new time: recording
/// twice is recording once, with the later time and spelling.
pub proof fn law_record_again(
    files: Seq<(Seq<char>, u64)>,
    first: Seq<char>,
    first_at: u64,
    second: Seq<char>,
    second_at: u64,
    platform: Platform,
)
    requires
        normalized(first, platform) == normalized(second, platform),
    ensures
        recorded(recorded(files, first, first_at, platform), second, second_at, platform) == recorded(
            files,
            second,
            second_at,
            platform,
        ),
{
    let k = normalized(first, platform);
    lemma_other_keys(files, k, platform);
    let o = other_keys(files, k, platform);
    let once = recorded(files, first, first_at, platform);
    let m: int = if o.len() > MAX_ENTRIES - 1 {
        MAX_ENTRIES - 1
    } else {
        o.len() as int
    };
    assert(once =~= seq![(first, first_at)] + o.take(m));
    lemma_other_keys_concat(seq![(first, first_at)], o.take(m), k, platform);
    let one = seq![(first, first_at)];
    assert(one.last() == (first, first_at));
    assert(one.drop_last() =~= Seq::<(Seq<char>, u64)>::empty());
    assert(other_keys(one.drop_last(), k, platform) =~= Seq::<(Seq<char>, u64)>::empty());
    assert(other_keys(one, k, platform) =~= Seq::<(Seq<char>, u64)>::empty());
    assert forall|j: int| 0 <= j < o.take(m).len() implies normalized(
        (#[trigger] o.take(m)[j]).0,
        platform,
    ) != k by {
        assert(o.take(m)[j] == o[j]);
    }
    lemma_other_keys_none(o.take(m), k, platform);
    assert(other_keys(once, k, platform) =~= o.take(m));
    assert(recorded(once, second, second_at, platform) =~= recorded(files, second, second_at, platform));
}

impl RecentStore {
    /// Records an opening of `path` at `opened_at`: nothing when recording is
    /// off; otherwise the entry goes first, any entry for the same document
    /// (by key) goes, and the list is cut to `MAX_ENTRIES`.
    pub fn record(&mut self, path: &str, opened_at: u64, platform: Platform)
        ensures
            final(self).enabled == old(self).enabled,
            !old(self).enabled ==> entries_view(final(self).files@) == entries_view(old(self).files@),
            old(self).enabled ==> entries_view(final(self).files@) == recorded(
                entries_view(old(self).files@),
                path@,
                opened_at,
                platform,
            ),
    {
        if !self.enabled {
            return;
        }
        let key = normalize(path, platform);
        let ghost old_files = entries_view(self.files@);
        let ghost k = normalized(path@, platform);
        let mut kept: Vec<RecentEntry> = Vec::new();
        kept.push(RecentEntry { path: string_from_chars(&chars_of(path)), opened_at });
        let mut i: usize = 0;
        assert(old_files.subrange(0, 0) =~= Seq::<(Seq<char>, u64)>::empty());
        assert(entries_view(kept@) =~= seq![(path@, opened_at)] + other_keys(old_files.subrange(0, 0), k, platform));
        while i < self.files.len()
            invariant
                i <= self.files@.len(),
                old_files == entries_view(self.files@),
                key@ == k,
                k == normalized(path@, platform),
                entries_view(kept@) == seq![(path@, opened_at)] + other_keys(
                    old_files.subrange(0, i as int),
                    k,
                    platform,
                ),
            decreases self.files@.len() - i,
        {
            let entry_key = normalize(self.files[i].path.as_str(), platform);
            let ghost prefix = old_files.subrange(0, i + 1);
            assert(prefix.drop_last() =~= old_files.subrange(0, i as int));
            assert(prefix.last() == (self.files@[i as int].path@, self.files@[i as int].opened_at));
            let ghost before = entries_view(kept@);
            if !str_eq(entry_key.as_str(), key.as_str()) {
                let copy = RecentEntry {
                    path: self.files[i].path.clone(),
                    opened_at: self.files[i].opened_at,
                };
                kept.push(copy);
                assert(entries_view(kept@) =~= before.push(prefix.last()));
                assert(other_keys(prefix, k, platform) =~= other_keys(prefix.drop_last(), k, platform).push(prefix.last()));
            } else {
                assert(other_keys(prefix, k, platform) =~= other_keys(prefix.drop_last(), k, platform));
            }
            assert(entries_view(kept@) =~= seq![(path@, opened_at)] + other_keys(prefix, k, platform));
            i = i + 1;
        }
        assert(old_files.subrange(0, self.files@.len() as int) =~= old_files);
        kept.truncate(MAX_ENTRIES);
        assert(entries_view(kept@) =~= recorded(old_files, path@, opened_at, platform));
        self.files = kept;
    }

    /// Turns recording on or off; the list is kept either way.
    pub fn set_enabled(&mut self, enabled: bool)
        ensures
            final(self).enabled == enabled,
            final(self).files == old(self).files,
    {
        self.enabled = enabled;
    }

    /// Empties the list; recording stays as it was.
    pub fn clear(&mut self)
        ensures
            final(self).enabled == old(self).enabled,
            final(self).files@.len() == 0,
    {
        self.files = Vec::new();
    }
}

/// The name the start screen shows for a path: its file name, or the path
/// itself when it has none.
pub open spec fn possible_display_name(path: Seq<char>, name: Seq<char>) -> bool {
    name == path || (name.len() > 0 && name != "."@ && name != ".."@ && occurs_in(path, name))
}

/// The start screen's view of one entry: its path, time, file name and
/// format.
pub fn recent_view(entry: &RecentEntry) -> (r: RecentFileView)
    ensures
        r.path@ == entry.path@,
        r.opened_at == entry.opened_at,
        possible_display_name(entry.path@, r.name@),
        possible_format(entry.path@, r.file_type),
        plain_path(entry.path@) ==> r.name@ == after_last(entry.path@, '/') && r.file_type
            == format_code(name_extension(after_last(entry.path@, '/'))),
        clear_extension(entry.path@) ==> r.file_type == format_code(
            Some(clear_extension_of(entry.path@)),
        ),
        clear_name(entry.path@) ==> (r.name@ == after_last(entry.path@, '/') || r.name@
            == final_name(entry.path@)),
{
    let name = match path_file_name(entry.path.as_str()) {
        Some(n) => n,
        None => entry.path.clone(),
    };
    RecentFileView {
        path: entry.path.clone(),
        name,
        opened_at: entry.opened_at,
        file_type: detect_format(entry.path.as_str()),
    }
}

/// The entries whose file is reachable, in order.
pub open spec fn reachable_entries(files: Seq<(Seq<char>, u64)>, reachable: Seq<bool>) -> Seq<(Seq<char>, u64)>
    decreases files.len(),
{
    if files.len() == 0 || reachable.len() != files.len() {
        Seq::empty()
    } else {
        reachable_entries(files.drop_last(), reachable.drop_last()) + if reachable.last() {
            seq![files.last()]
        } else {
            Seq::empty()
        }
    }
}

/// What the start screen is given. A moved or deleted file stays in the
/// store but is not offered (`reachable` says, entry by entry, whether the
/// file is there): an unmounted drive or an offline share comes back on its
/// own instead of being purged on the one run where it was unreachable.
pub fn recent_state(store: &RecentStore, reachable: &Vec<bool>) -> (r: RecentState)
    requires
        reachable@.len() == store.files@.len(),
    ensures
        r.enabled == store.enabled,
        r.files@.map_values(|v: RecentFileView| (v.path@, v.opened_at)) == reachable_entries(
            entries_view(store.files@),
            reachable@,
        ),
        forall|i: int|
            0 <= i < r.files@.len() ==> possible_display_name(
                #[trigger] r.files@[i].path@,
                r.files@[i].name@,
            ) && possible_format(r.files@[i].path@, r.files@[i].file_type) && (plain_path(
                r.files@[i].path@,
            ) ==> r.files@[i].name@ == after_last(r.files@[i].path@, '/') && r.files@[i].file_type
                == format_code(name_extension(after_last(r.files@[i].path@, '/')))) && (
            clear_extension(r.files@[i].path@) ==> r.files@[i].file_type == format_code(
                Some(clear_extension_of(r.files@[i].path@)),
            )) && (clear_name(r.files@[i].path@) ==> (r.files@[i].name@ == after_last(
                r.files@[i].path@,
                '/',
            ) || r.files@[i].name@ == final_name(r.files@[i].path@))),
{
    let ghost all = entries_view(store.files@);
    let mut views: Vec<RecentFileView> = Vec::new();
    let mut i: usize = 0;
    assert(all.subrange(0, 0) =~= Seq::<(Seq<char>, u64)>::empty());
    while i < store.files.len()
        invariant
            i <= store.files@.len(),
            reachable@.len() == store.files@.len(),
            all == entries_view(store.files@),
            views@.map_values(|v: RecentFileView| (v.path@, v.opened_at)) == reachable_entries(
                all.subrange(0, i as int),
                reachable@.subrange(0, i as int),
            ),
            forall|j: int|
                0 <= j < views@.len() ==> possible_display_name(
                    #[trigger] views@[j].path@,
                    views@[j].name@,
                ) && possible_format(views@[j].path@, views@[j].file_type) && (plain_path(
                    views@[j].path@,
                ) ==> views@[j].name@ == after_last(views@[j].path@, '/') && views@[j].file_type
                    == format_code(name_extension(after_last(views@[j].path@, '/')))) && (
                clear_extension(views@[j].path@) ==> views@[j].file_type == format_code(
                    Some(clear_extension_of(views@[j].path@)),
                )) && (clear_name(views@[j].path@) ==> (views@[j].name@ == after_last(
                    views@[j].path@,
                    '/',
                ) || views@[j].name@ == final_name(views@[j].path@))),
        decreases store.files@.len() - i,
    {
        let ghost prefix = all.subrange(0, i + 1);
        let ghost rprefix = reachable@.subrange(0, i + 1);
        assert(prefix.drop_last() =~= all.subrange(0, i as int));
        assert(rprefix.drop_last() =~= reachable@.subrange(0, i as int));
        if reachable[i] {
            let v = recent_view(&store.files[i]);
            views.push(v);
        }
        assert(views@.map_values(|v: RecentFileView| (v.path@, v.opened_at)) =~= reachable_entries(
            prefix,
            rprefix,
        ));
        i = i + 1;
    }
    assert(all.subrange(0, store.files@.len() as int) =~= all);
    assert(reachable@.subrange(0, store.files@.len() as int) =~= reachable@);
    RecentState { enabled: store.enabled, files: views }
}

} // verus!
