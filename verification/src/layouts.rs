//! The layouts of torrents' contents, kept so that each torrent's metadata is read once rather
//! than on every look for its files.
use vstd::prelude::*;
use vstd::string::*;

use crate::path::{same_path, FilePath};
use crate::table::Table;
use crate::text::same_text;
use crate::torrent_paths::{ContentLayout, LayoutView};

verus! {

/// A layout, with the source and folder it was read for.
#[derive(Debug)]
pub struct KeptLayout {
    pub uri: String,
    pub output_dir: FilePath,
    pub layout: ContentLayout,
}

/// What a [`KeptLayout`] says.
pub struct KeptView {
    pub uri: Seq<char>,
    pub output_dir: Seq<u8>,
    pub layout: LayoutView,
}

impl View for KeptLayout {
    type V = KeptView;

    open spec fn view(&self) -> KeptView {
        KeptView { uri: self.uri@, output_dir: self.output_dir@, layout: self.layout@ }
    }
}

/// What the layouts of a table say, by info hash.
pub open spec fn kept_views(table: Map<Seq<char>, KeptLayout>) -> Map<Seq<char>, KeptView> {
    Map::new(|key: Seq<char>| table.contains_key(key), |key: Seq<char>| table[key]@)
}

/// The layout kept for a torrent with this source and folder.
pub open spec fn kept_for(
    kept: Map<Seq<char>, KeptView>,
    info_hash: Seq<char>,
    uri: Seq<char>,
    output_dir: Seq<u8>,
) -> Option<LayoutView> {
    if kept.contains_key(info_hash) && kept[info_hash].uri == uri && crate::path::same_path_of(
        kept[info_hash].output_dir,
        output_dir,
    ) {
        Some(kept[info_hash].layout)
    } else {
        None
    }
}

/// The layouts of torrents' contents, by info hash, each kept for as long as its torrent keeps
/// its source and folder.
pub struct Layouts {
    pub table: Table<KeptLayout>,
}

impl View for Layouts {
    type V = Map<Seq<char>, KeptView>;

    open spec fn view(&self) -> Map<Seq<char>, KeptView> {
        kept_views(self.table@)
    }
}

impl Layouts {
    pub open spec fn wf(self) -> bool {
        self.table.wf()
    }

    /// No layouts.
    pub fn new() -> (layouts: Self)
        ensures
            layouts.wf(),
            layouts@ == Map::<Seq<char>, KeptView>::empty(),
    {
        let layouts = Layouts { table: Table::new() };
        proof {
            assert(layouts@ =~= Map::<Seq<char>, KeptView>::empty());
        }
        layouts
    }

    /// The layout kept for a torrent, if it still has the source and folder it was read for.
    pub fn cached_layout(&self, info_hash: &str, uri: &str, output_dir: &FilePath) -> (layout: Option<
        &ContentLayout,
    >)
        requires
            self.wf(),
        ensures
            layout is Some == kept_for(self@, info_hash@, uri@, output_dir@) is Some,
            layout is Some ==> layout->0@ == kept_for(self@, info_hash@, uri@, output_dir@)->0,
    {
        match self.table.get(info_hash) {
            Some(kept) => if same_text(kept.uri.as_str(), uri) && same_path(
                &kept.output_dir,
                output_dir,
            ) {
                Some(&kept.layout)
            } else {
                None
            },
            None => None,
        }
    }

    /// Keeps the layout read for a torrent, in place of an earlier one.
    pub fn keep(&mut self, info_hash: &str, uri: &str, output_dir: &FilePath, layout: ContentLayout)
        requires
            old(self).wf(),
        ensures
            final(self).wf(),
            final(self)@ == old(self)@.insert(
                info_hash@,
                (KeptView { uri: uri@, output_dir: output_dir@, layout: layout@ }),
            ),
    {
        let ghost was = self@;
        let kept = KeptLayout { uri: uri.to_owned(), output_dir: output_dir.clone(), layout };
        let ghost view = kept@;
        self.table.insert(info_hash.to_owned(), kept);
        proof {
            assert(self@ =~= was.insert(info_hash@, view));
        }
    }

    /// Lets go of a torrent's layout.
    pub fn forget(&mut self, info_hash: &str)
        requires
            old(self).wf(),
        ensures
            final(self).wf(),
            final(self)@ == old(self)@.remove(info_hash@),
    {
        let ghost was = self@;
        let _ = self.table.remove(info_hash);
        proof {
            assert(self@ =~= was.remove(info_hash@));
        }
    }
}

/// A layout is kept for a torrent with its link and its folder, and found again only for all
/// three.
pub proof fn layouts_are_kept_for_one_link_and_folder(
    kept: Map<Seq<char>, KeptView>,
    info_hash: Seq<char>,
    entry: KeptView,
    uri: Seq<char>,
    output_dir: Seq<u8>,
)
    ensures
        kept_for(kept.insert(info_hash, entry), info_hash, entry.uri, entry.output_dir) == Some(
            entry.layout,
        ),
        kept_for(kept.insert(info_hash, entry), info_hash, uri, output_dir) is Some <==> uri
            == entry.uri && crate::path::same_path_of(entry.output_dir, output_dir),
        kept_for(kept.remove(info_hash), info_hash, uri, output_dir) is None,
        forall|other: Seq<char>|
            other != info_hash ==> #[trigger] kept_for(
                kept.insert(info_hash, entry),
                other,
                uri,
                output_dir,
            ) == kept_for(kept, other, uri, output_dir),
{
}

/// What is kept says what it holds.
pub proof fn kept_layouts_say_what_they_hold(kept: KeptLayout, layouts: Layouts, key: Seq<char>)
    ensures
        kept@.uri == kept.uri@,
        kept@.output_dir == kept.output_dir.bytes@,
        kept@.layout == kept.layout@,
        layouts@.contains_key(key) <==> layouts.table@.contains_key(key),
        layouts@.contains_key(key) ==> layouts@[key] == layouts.table@[key]@,
{
}

} // verus!
