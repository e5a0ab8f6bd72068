//! Help browser: the topic table, topic lookup and cross-link form, the
//! mapping from where the user is (tool, panel, settings page) to a topic,
//! and the browser's navigation state.
use vstd::prelude::*;
use crate::text::{str_eq, owned, push_str};
use crate::help_search::{SearchIndex, SearchHit, built_index, string_views, hits_ok, hits_view, lowercase, spec_trim};

verus! {

/// Sidebar grouping for help topics.
#[derive(Debug, Clone, Copy, PartialEq, Eq, Structural)]
pub enum HelpCategory {
    GettingStarted,
    Maps,
    Terrain,
    Objects,
    Generator,
    Rendering,
    Analysis,
    Settings,
    Testing,
}

impl HelpCategory {
    pub open spec fn spec_label(self) -> Seq<char> {
        match self {
            HelpCategory::GettingStarted => "Getting Started"@,
            HelpCategory::Maps => "Maps"@,
            HelpCategory::Terrain => "Terrain"@,
            HelpCategory::Objects => "Objects"@,
            HelpCategory::Generator => "Generator"@,
            HelpCategory::Rendering => "Rendering"@,
            HelpCategory::Analysis => "Analysis"@,
            HelpCategory::Settings => "Settings"@,
            HelpCategory::Testing => "Testing"@,
        }
    }

    /// Sidebar heading of the category.
    pub fn label(self) -> (r: &'static str)
        ensures
            r@ == self.spec_label(),
    {
        match self {
            HelpCategory::GettingStarted => "Getting Started",
            HelpCategory::Maps => "Maps",
            HelpCategory::Terrain => "Terrain",
            HelpCategory::Objects => "Objects",
            HelpCategory::Generator => "Generator",
            HelpCategory::Rendering => "Rendering",
            HelpCategory::Analysis => "Analysis",
            HelpCategory::Settings => "Settings",
            HelpCategory::Testing => "Testing",
        }
    }

    /// Categories in sidebar order.
    pub fn all() -> (r: Vec<HelpCategory>)
        ensures
            r@ == spec_all_categories(),
    {
        let r = vec![
            HelpCategory::GettingStarted,
            HelpCategory::Maps,
            HelpCategory::Terrain,
            HelpCategory::Objects,
            HelpCategory::Generator,
            HelpCategory::Rendering,
            HelpCategory::Analysis,
            HelpCategory::Settings,
            HelpCategory::Testing,
        ];
        assert(r@ =~= spec_all_categories());
        r
    }
}

/// Categories in sidebar order.
pub open spec fn spec_all_categories() -> Seq<HelpCategory> {
    seq![
        HelpCategory::GettingStarted,
        HelpCategory::Maps,
        HelpCategory::Terrain,
        HelpCategory::Objects,
        HelpCategory::Generator,
        HelpCategory::Rendering,
        HelpCategory::Analysis,
        HelpCategory::Settings,
        HelpCategory::Testing,
    ]
}

/// Every category appears in the sidebar list.
pub proof fn lemma_every_category_listed(c: HelpCategory)
    ensures
        spec_all_categories().contains(c),
{
    let all = spec_all_categories();
    match c {
        HelpCategory::GettingStarted => assert(all[0] == c),
        HelpCategory::Maps => assert(all[1] == c),
        HelpCategory::Terrain => assert(all[2] == c),
        HelpCategory::Objects => assert(all[3] == c),
        HelpCategory::Generator => assert(all[4] == c),
        HelpCategory::Rendering => assert(all[5] == c),
        HelpCategory::Analysis => assert(all[6] == c),
        HelpCategory::Settings => assert(all[7] == c),
        HelpCategory::Testing => assert(all[8] == c),
    }
}

/// A help topic's metadata; its markdown body is held alongside, by
/// position in the topic table.
#[derive(Debug, Clone, Copy, PartialEq, Eq)]
pub struct HelpTopic {
    /// Stable slug, unique across the table.
    pub id: &'static str,
    pub title: &'static str,
    pub category: HelpCategory,
    /// Hidden in the web build.
    pub native_only: bool,
}

/// The topic shown when the browser opens with no prior selection.
pub const DEFAULT_TOPIC: &'static str = "getting-started";

/// The topic table: slug, title, category and whether the topic is
/// native-only, in sidebar order.
pub open spec fn topic_table() -> Seq<(Seq<char>, Seq<char>, HelpCategory, bool)> {
    seq![
        ("getting-started"@, "Getting Started"@, HelpCategory::GettingStarted, false),
        ("interface-overview"@, "Interface Overview"@, HelpCategory::GettingStarted, false),
        ("mouse-gestures"@, "Mouse & Gestures"@, HelpCategory::GettingStarted, false),
        ("maps-create"@, "Creating & Opening Maps"@, HelpCategory::Maps, false),
        ("maps-resize"@, "Resizing a Map"@, HelpCategory::Maps, false),
        ("maps-properties"@, "Map Properties"@, HelpCategory::Maps, false),
        ("maps-publish"@, "Publishing Maps"@, HelpCategory::Maps, true),
        ("terrain"@, "Terrain Tools"@, HelpCategory::Terrain, false),
        ("terrain-height-brush"@, "Height Brush"@, HelpCategory::Terrain, false),
        ("terrain-texture-paint"@, "Texture Painting"@, HelpCategory::Terrain, false),
        ("terrain-ground-types"@, "Ground Types"@, HelpCategory::Terrain, false),
        ("terrain-vertex-sculpt"@, "Vertex Sculpt"@, HelpCategory::Terrain, false),
        ("terrain-stamp"@, "Stamp Tool"@, HelpCategory::Terrain, false),
        ("terrain-walls"@, "Walls"@, HelpCategory::Terrain, false),
        ("terrain-mirror"@, "Mirroring Edits"@, HelpCategory::Terrain, false),
        ("objects"@, "Placing Objects"@, HelpCategory::Objects, false),
        ("generator"@, "Map Generator"@, HelpCategory::Generator, false),
        ("rendering"@, "Rendering & Overlays"@, HelpCategory::Rendering, false),
        ("minimap"@, "Minimap"@, HelpCategory::Rendering, false),
        ("validation"@, "Validation & Problems"@, HelpCategory::Analysis, false),
        ("balance"@, "Balance Analysis"@, HelpCategory::Analysis, false),
        ("settings-graphics"@, "Graphics & Theme"@, HelpCategory::Settings, false),
        ("test-map"@, "Testing Your Map"@, HelpCategory::Testing, true),
    ]
}

pub open spec fn topic_view(t: HelpTopic) -> (Seq<char>, Seq<char>, HelpCategory, bool) {
    (t.id@, t.title@, t.category, t.native_only)
}

/// All help topics, in sidebar order.
pub fn topics() -> (r: Vec<HelpTopic>)
    ensures
        r@.len() == topic_table().len(),
        forall|i: int| 0 <= i < r@.len() ==> topic_view(#[trigger] r@[i]) == topic_table()[i],
{
    let r = vec![
        HelpTopic { id: "getting-started", title: "Getting Started", category: HelpCategory::GettingStarted, native_only: false },
        HelpTopic { id: "interface-overview", title: "Interface Overview", category: HelpCategory::GettingStarted, native_only: false },
        HelpTopic { id: "mouse-gestures", title: "Mouse & Gestures", category: HelpCategory::GettingStarted, native_only: false },
        HelpTopic { id: "maps-create", title: "Creating & Opening Maps", category: HelpCategory::Maps, native_only: false },
        HelpTopic { id: "maps-resize", title: "Resizing a Map", category: HelpCategory::Maps, native_only: false },
        HelpTopic { id: "maps-properties", title: "Map Properties", category: HelpCategory::Maps, native_only: false },
        HelpTopic { id: "maps-publish", title: "Publishing Maps", category: HelpCategory::Maps, native_only: true },
        HelpTopic { id: "terrain", title: "Terrain Tools", category: HelpCategory::Terrain, native_only: false },
        HelpTopic { id: "terrain-height-brush", title: "Height Brush", category: HelpCategory::Terrain, native_only: false },
        HelpTopic { id: "terrain-texture-paint", title: "Texture Painting", category: HelpCategory::Terrain, native_only: false },
        HelpTopic { id: "terrain-ground-types", title: "Ground Types", category: HelpCategory::Terrain, native_only: false },
        HelpTopic { id: "terrain-vertex-sculpt", title: "Vertex Sculpt", category: HelpCategory::Terrain, native_only: false },
        HelpTopic { id: "terrain-stamp", title: "Stamp Tool", category: HelpCategory::Terrain, native_only: false },
        HelpTopic { id: "terrain-walls", title: "Walls", category: HelpCategory::Terrain, native_only: false },
        HelpTopic { id: "terrain-mirror", title: "Mirroring Edits", category: HelpCategory::Terrain, native_only: false },
        HelpTopic { id: "objects", title: "Placing Objects", category: HelpCategory::Objects, native_only: false },
        HelpTopic { id: "generator", title: "Map Generator", category: HelpCategory::Generator, native_only: false },
        HelpTopic { id: "rendering", title: "Rendering & Overlays", category: HelpCategory::Rendering, native_only: false },
        HelpTopic { id: "minimap", title: "Minimap", category: HelpCategory::Rendering, native_only: false },
        HelpTopic { id: "validation", title: "Validation & Problems", category: HelpCategory::Analysis, native_only: false },
        HelpTopic { id: "balance", title: "Balance Analysis", category: HelpCategory::Analysis, native_only: false },
        HelpTopic { id: "settings-graphics", title: "Graphics & Theme", category: HelpCategory::Settings, native_only: false },
        HelpTopic { id: "test-map", title: "Testing Your Map", category: HelpCategory::Testing, native_only: true },
    ];
    assert(r@.len() == topic_table().len());
    r
}

/// `i` is the first topic whose slug is `id`.
pub open spec fn is_topic_index(id: Seq<char>, i: int) -> bool {
    &&& 0 <= i < topic_table().len()
    &&& topic_table()[i].0 == id
    &&& forall|j: int| 0 <= j < i ==> topic_table()[j].0 != id
}

/// Position of the topic with slug `id`, if any.
pub open spec fn spec_topic_index(id: Seq<char>) -> Option<int> {
    if exists|i: int| is_topic_index(id, i) {
        Some(choose|i: int| is_topic_index(id, i))
    } else {
        None
    }
}

proof fn lemma_topic_index_unique(id: Seq<char>, i: int)
    requires
        is_topic_index(id, i),
    ensures
        spec_topic_index(id) == Some(i),
{
    let k = choose|k: int| is_topic_index(id, k);
    assert(is_topic_index(id, k));
    if k < i {
        assert(topic_table()[k].0 != id);
    } else if k > i {
        assert(topic_table()[i].0 != id);
    }
}

/// Look up a topic by its slug.
pub fn topic_by_id(id: &str) -> (r: Option<HelpTopic>)
    ensures
        match r {
            Some(t) => spec_topic_index(id@) matches Some(i) && topic_view(t) == topic_table()[i],
            None => spec_topic_index(id@) is None,
        },
{
    let all = topics();
    let mut i: usize = 0;
    while i < all.len()
        invariant
            all@.len() == topic_table().len(),
            forall|k: int| 0 <= k < all@.len() ==> topic_view(#[trigger] all@[k]) == topic_table()[k],
            i <= all@.len(),
            forall|j: int| 0 <= j < i ==> topic_table()[j].0 != id@,
        decreases all@.len() - i,
    {
        if str_eq(all[i].id, id) {
            proof {
                assert(topic_view(all@[i as int]) == topic_table()[i as int]);
                lemma_topic_index_unique(id@, i as int);
            }
            return Some(all[i]);
        }
        proof {
            assert(topic_view(all@[i as int]) == topic_table()[i as int]);
        }
        i = i + 1;
    }
    proof {
        if exists|k: int| is_topic_index(id@, k) {
            let k = choose|k: int| is_topic_index(id@, k);
            assert(topic_table()[k].0 == id@);
        }
    }
    None
}

/// No two topics share a slug.
pub proof fn lemma_topic_ids_unique()
    ensures
        forall|i: int, j: int|
            0 <= i < j < topic_table().len() ==> #[trigger] topic_table()[i].0 != #[trigger] topic_table()[j].0,
{
    reveal_strlit("getting-started");
    reveal_strlit("interface-overview");
    reveal_strlit("mouse-gestures");
    reveal_strlit("maps-create");
    reveal_strlit("maps-resize");
    reveal_strlit("maps-properties");
    reveal_strlit("maps-publish");
    reveal_strlit("terrain");
    reveal_strlit("terrain-height-brush");
    reveal_strlit("terrain-texture-paint");
    reveal_strlit("terrain-ground-types");
    reveal_strlit("terrain-vertex-sculpt");
    reveal_strlit("terrain-stamp");
    reveal_strlit("terrain-walls");
    reveal_strlit("terrain-mirror");
    reveal_strlit("objects");
    reveal_strlit("generator");
    reveal_strlit("rendering");
    reveal_strlit("minimap");
    reveal_strlit("validation");
    reveal_strlit("balance");
    reveal_strlit("settings-graphics");
    reveal_strlit("test-map");
    assert forall|i: int, j: int| 0 <= i < j < topic_table().len() implies #[trigger] topic_table()[i].0 != #[trigger] topic_table()[j].0 by {
        if i == 0 && j == 1 {
            assert(topic_table()[0].0.len() != topic_table()[1].0.len());
        } else if i == 0 && j == 2 {
            assert(topic_table()[0].0.len() != topic_table()[2].0.len());
        } else if i == 0 && j == 3 {
            assert(topic_table()[0].0.len() != topic_table()[3].0.len());
        } else if i == 0 && j == 4 {
            assert(topic_table()[0].0.len() != topic_table()[4].0.len());
        } else if i == 0 && j == 5 {
            assert(topic_table()[0].0[0] != topic_table()[5].0[0]);
        } else if i == 0 && j == 6 {
            assert(topic_table()[0].0.len() != topic_table()[6].0.len());
        } else if i == 0 && j == 7 {
            assert(topic_table()[0].0.len() != topic_table()[7].0.len());
        } else if i == 0 && j == 8 {
            assert(topic_table()[0].0.len() != topic_table()[8].0.len());
        } else if i == 0 && j == 9 {
            assert(topic_table()[0].0.len() != topic_table()[9].0.len());
        } else if i == 0 && j == 10 {
            assert(topic_table()[0].0.len() != topic_table()[10].0.len());
        } else if i == 0 && j == 11 {
            assert(topic_table()[0].0.len() != topic_table()[11].0.len());
        } else if i == 0 && j == 12 {
            assert(topic_table()[0].0.len() != topic_table()[12].0.len());
        } else if i == 0 && j == 13 {
            assert(topic_table()[0].0.len() != topic_table()[13].0.len());
        } else if i == 0 && j == 14 {
            assert(topic_table()[0].0.len() != topic_table()[14].0.len());
        } else if i == 0 && j == 15 {
            assert(topic_table()[0].0.len() != topic_table()[15].0.len());
        } else if i == 0 && j == 16 {
            assert(topic_table()[0].0.len() != topic_table()[16].0.len());
        } else if i == 0 && j == 17 {
            assert(topic_table()[0].0.len() != topic_table()[17].0.len());
        } else if i == 0 && j == 18 {
            assert(topic_table()[0].0.len() != topic_table()[18].0.len());
        } else if i == 0 && j == 19 {
            assert(topic_table()[0].0.len() != topic_table()[19].0.len());
        } else if i == 0 && j == 20 {
            assert(topic_table()[0].0.len() != topic_table()[20].0.len());
        } else if i == 0 && j == 21 {
            assert(topic_table()[0].0.len() != topic_table()[21].0.len());
        } else if i == 0 && j == 22 {
            assert(topic_table()[0].0.len() != topic_table()[22].0.len());
        } else if i == 1 && j == 2 {
            assert(topic_table()[1].0.len() != topic_table()[2].0.len());
        } else if i == 1 && j == 3 {
            assert(topic_table()[1].0.len() != topic_table()[3].0.len());
        } else if i == 1 && j == 4 {
            assert(topic_table()[1].0.len() != topic_table()[4].0.len());
        } else if i == 1 && j == 5 {
            assert(topic_table()[1].0.len() != topic_table()[5].0.len());
        } else if i == 1 && j == 6 {
            assert(topic_table()[1].0.len() != topic_table()[6].0.len());
        } else if i == 1 && j == 7 {
            assert(topic_table()[1].0.len() != topic_table()[7].0.len());
        } else if i == 1 && j == 8 {
            assert(topic_table()[1].0.len() != topic_table()[8].0.len());
        } else if i == 1 && j == 9 {
            assert(topic_table()[1].0.len() != topic_table()[9].0.len());
        } else if i == 1 && j == 10 {
            assert(topic_table()[1].0.len() != topic_table()[10].0.len());
        } else if i == 1 && j == 11 {
            assert(topic_table()[1].0.len() != topic_table()[11].0.len());
        } else if i == 1 && j == 12 {
            assert(topic_table()[1].0.len() != topic_table()[12].0.len());
        } else if i == 1 && j == 13 {
            assert(topic_table()[1].0.len() != topic_table()[13].0.len());
        } else if i == 1 && j == 14 {
            assert(topic_table()[1].0.len() != topic_table()[14].0.len());
        } else if i == 1 && j == 15 {
            assert(topic_table()[1].0.len() != topic_table()[15].0.len());
        } else if i == 1 && j == 16 {
            assert(topic_table()[1].0.len() != topic_table()[16].0.len());
        } else if i == 1 && j == 17 {
            assert(topic_table()[1].0.len() != topic_table()[17].0.len());
        } else if i == 1 && j == 18 {
            assert(topic_table()[1].0.len() != topic_table()[18].0.len());
        } else if i == 1 && j == 19 {
            assert(topic_table()[1].0.len() != topic_table()[19].0.len());
        } else if i == 1 && j == 20 {
            assert(topic_table()[1].0.len() != topic_table()[20].0.len());
        } else if i == 1 && j == 21 {
            assert(topic_table()[1].0.len() != topic_table()[21].0.len());
        } else if i == 1 && j == 22 {
            assert(topic_table()[1].0.len() != topic_table()[22].0.len());
        } else if i == 2 && j == 3 {
            assert(topic_table()[2].0.len() != topic_table()[3].0.len());
        } else if i == 2 && j == 4 {
            assert(topic_table()[2].0.len() != topic_table()[4].0.len());
        } else if i == 2 && j == 5 {
            assert(topic_table()[2].0.len() != topic_table()[5].0.len());
        } else if i == 2 && j == 6 {
            assert(topic_table()[2].0.len() != topic_table()[6].0.len());
        } else if i == 2 && j == 7 {
            assert(topic_table()[2].0.len() != topic_table()[7].0.len());
        } else if i == 2 && j == 8 {
            assert(topic_table()[2].0.len() != topic_table()[8].0.len());
        } else if i == 2 && j == 9 {
            assert(topic_table()[2].0.len() != topic_table()[9].0.len());
        } else if i == 2 && j == 10 {
            assert(topic_table()[2].0.len() != topic_table()[10].0.len());
        } else if i == 2 && j == 11 {
            assert(topic_table()[2].0.len() != topic_table()[11].0.len());
        } else if i == 2 && j == 12 {
            assert(topic_table()[2].0.len() != topic_table()[12].0.len());
        } else if i == 2 && j == 13 {
            assert(topic_table()[2].0.len() != topic_table()[13].0.len());
        } else if i == 2 && j == 14 {
            assert(topic_table()[2].0[0] != topic_table()[14].0[0]);
        } else if i == 2 && j == 15 {
            assert(topic_table()[2].0.len() != topic_table()[15].0.len());
        } else if i == 2 && j == 16 {
            assert(topic_table()[2].0.len() != topic_table()[16].0.len());
        } else if i == 2 && j == 17 {
            assert(topic_table()[2].0.len() != topic_table()[17].0.len());
        } else if i == 2 && j == 18 {
            assert(topic_table()[2].0.len() != topic_table()[18].0.len());
        } else if i == 2 && j == 19 {
            assert(topic_table()[2].0.len() != topic_table()[19].0.len());
        } else if i == 2 && j == 20 {
            assert(topic_table()[2].0.len() != topic_table()[20].0.len());
        } else if i == 2 && j == 21 {
            assert(topic_table()[2].0.len() != topic_table()[21].0.len());
        } else if i == 2 && j == 22 {
            assert(topic_table()[2].0.len() != topic_table()[22].0.len());
        } else if i == 3 && j == 4 {
            assert(topic_table()[3].0[5] != topic_table()[4].0[5]);
        } else if i == 3 && j == 5 {
            assert(topic_table()[3].0.len() != topic_table()[5].0.len());
        } else if i == 3 && j == 6 {
            assert(topic_table()[3].0.len() != topic_table()[6].0.len());
        } else if i == 3 && j == 7 {
            assert(topic_table()[3].0.len() != topic_table()[7].0.len());
        } else if i == 3 && j == 8 {
            assert(topic_table()[3].0.len() != topic_table()[8].0.len());
        } else if i == 3 && j == 9 {
            assert(topic_table()[3].0.len() != topic_table()[9].0.len());
        } else if i == 3 && j == 10 {
            assert(topic_table()[3].0.len() != topic_table()[10].0.len());
        } else if i == 3 && j == 11 {
            assert(topic_table()[3].0.len() != topic_table()[11].0.len());
        } else if i == 3 && j == 12 {
            assert(topic_table()[3].0.len() != topic_table()[12].0.len());
        } else if i == 3 && j == 13 {
            assert(topic_table()[3].0.len() != topic_table()[13].0.len());
        } else if i == 3 && j == 14 {
            assert(topic_table()[3].0.len() != topic_table()[14].0.len());
        } else if i == 3 && j == 15 {
            assert(topic_table()[3].0.len() != topic_table()[15].0.len());
        } else if i == 3 && j == 16 {
            assert(topic_table()[3].0.len() != topic_table()[16].0.len());
        } else if i == 3 && j == 17 {
            assert(topic_table()[3].0.len() != topic_table()[17].0.len());
        } else if i == 3 && j == 18 {
            assert(topic_table()[3].0.len() != topic_table()[18].0.len());
        } else if i == 3 && j == 19 {
            assert(topic_table()[3].0.len() != topic_table()[19].0.len());
        } else if i == 3 && j == 20 {
            assert(topic_table()[3].0.len() != topic_table()[20].0.len());
        } else if i == 3 && j == 21 {
            assert(topic_table()[3].0.len() != topic_table()[21].0.len());
        } else if i == 3 && j == 22 {
            assert(topic_table()[3].0.len() != topic_table()[22].0.len());
        } else if i == 4 && j == 5 {
            assert(topic_table()[4].0.len() != topic_table()[5].0.len());
        } else if i == 4 && j == 6 {
            assert(topic_table()[4].0.len() != topic_table()[6].0.len());
        } else if i == 4 && j == 7 {
            assert(topic_table()[4].0.len() != topic_table()[7].0.len());
        } else if i == 4 && j == 8 {
            assert(topic_table()[4].0.len() != topic_table()[8].0.len());
        } else if i == 4 && j == 9 {
            assert(topic_table()[4].0.len() != topic_table()[9].0.len());
        } else if i == 4 && j == 10 {
            assert(topic_table()[4].0.len() != topic_table()[10].0.len());
        } else if i == 4 && j == 11 {
            assert(topic_table()[4].0.len() != topic_table()[11].0.len());
        } else if i == 4 && j == 12 {
            assert(topic_table()[4].0.len() != topic_table()[12].0.len());
        } else if i == 4 && j == 13 {
            assert(topic_table()[4].0.len() != topic_table()[13].0.len());
        } else if i == 4 && j == 14 {
            assert(topic_table()[4].0.len() != topic_table()[14].0.len());
        } else if i == 4 && j == 15 {
            assert(topic_table()[4].0.len() != topic_table()[15].0.len());
        } else if i == 4 && j == 16 {
            assert(topic_table()[4].0.len() != topic_table()[16].0.len());
        } else if i == 4 && j == 17 {
            assert(topic_table()[4].0.len() != topic_table()[17].0.len());
        } else if i == 4 && j == 18 {
            assert(topic_table()[4].0.len() != topic_table()[18].0.len());
        } else if i == 4 && j == 19 {
            assert(topic_table()[4].0.len() != topic_table()[19].0.len());
        } else if i == 4 && j == 20 {
            assert(topic_table()[4].0.len() != topic_table()[20].0.len());
        } else if i == 4 && j == 21 {
            assert(topic_table()[4].0.len() != topic_table()[21].0.len());
        } else if i == 4 && j == 22 {
            assert(topic_table()[4].0.len() != topic_table()[22].0.len());
        } else if i == 5 && j == 6 {
            assert(topic_table()[5].0.len() != topic_table()[6].0.len());
        } else if i == 5 && j == 7 {
            assert(topic_table()[5].0.len() != topic_table()[7].0.len());
        } else if i == 5 && j == 8 {
            assert(topic_table()[5].0.len() != topic_table()[8].0.len());
        } else if i == 5 && j == 9 {
            assert(topic_table()[5].0.len() != topic_table()[9].0.len());
        } else if i == 5 && j == 10 {
            assert(topic_table()[5].0.len() != topic_table()[10].0.len());
        } else if i == 5 && j == 11 {
            assert(topic_table()[5].0.len() != topic_table()[11].0.len());
        } else if i == 5 && j == 12 {
            assert(topic_table()[5].0.len() != topic_table()[12].0.len());
        } else if i == 5 && j == 13 {
            assert(topic_table()[5].0.len() != topic_table()[13].0.len());
        } else if i == 5 && j == 14 {
            assert(topic_table()[5].0.len() != topic_table()[14].0.len());
        } else if i == 5 && j == 15 {
            assert(topic_table()[5].0.len() != topic_table()[15].0.len());
        } else if i == 5 && j == 16 {
            assert(topic_table()[5].0.len() != topic_table()[16].0.len());
        } else if i == 5 && j == 17 {
            assert(topic_table()[5].0.len() != topic_table()[17].0.len());
        } else if i == 5 && j == 18 {
            assert(topic_table()[5].0.len() != topic_table()[18].0.len());
        } else if i == 5 && j == 19 {
            assert(topic_table()[5].0.len() != topic_table()[19].0.len());
        } else if i == 5 && j == 20 {
            assert(topic_table()[5].0.len() != topic_table()[20].0.len());
        } else if i == 5 && j == 21 {
            assert(topic_table()[5].0.len() != topic_table()[21].0.len());
        } else if i == 5 && j == 22 {
            assert(topic_table()[5].0.len() != topic_table()[22].0.len());
        } else if i == 6 && j == 7 {
            assert(topic_table()[6].0.len() != topic_table()[7].0.len());
        } else if i == 6 && j == 8 {
            assert(topic_table()[6].0.len() != topic_table()[8].0.len());
        } else if i == 6 && j == 9 {
            assert(topic_table()[6].0.len() != topic_table()[9].0.len());
        } else if i == 6 && j == 10 {
            assert(topic_table()[6].0.len() != topic_table()[10].0.len());
        } else if i == 6 && j == 11 {
            assert(topic_table()[6].0.len() != topic_table()[11].0.len());
        } else if i == 6 && j == 12 {
            assert(topic_table()[6].0.len() != topic_table()[12].0.len());
        } else if i == 6 && j == 13 {
            assert(topic_table()[6].0.len() != topic_table()[13].0.len());
        } else if i == 6 && j == 14 {
            assert(topic_table()[6].0.len() != topic_table()[14].0.len());
        } else if i == 6 && j == 15 {
            assert(topic_table()[6].0.len() != topic_table()[15].0.len());
        } else if i == 6 && j == 16 {
            assert(topic_table()[6].0.len() != topic_table()[16].0.len());
        } else if i == 6 && j == 17 {
            assert(topic_table()[6].0.len() != topic_table()[17].0.len());
        } else if i == 6 && j == 18 {
            assert(topic_table()[6].0.len() != topic_table()[18].0.len());
        } else if i == 6 && j == 19 {
            assert(topic_table()[6].0.len() != topic_table()[19].0.len());
        } else if i == 6 && j == 20 {
            assert(topic_table()[6].0.len() != topic_table()[20].0.len());
        } else if i == 6 && j == 21 {
            assert(topic_table()[6].0.len() != topic_table()[21].0.len());
        } else if i == 6 && j == 22 {
            assert(topic_table()[6].0.len() != topic_table()[22].0.len());
        } else if i == 7 && j == 8 {
            assert(topic_table()[7].0.len() != topic_table()[8].0.len());
        } else if i == 7 && j == 9 {
            assert(topic_table()[7].0.len() != topic_table()[9].0.len());
        } else if i == 7 && j == 10 {
            assert(topic_table()[7].0.len() != topic_table()[10].0.len());
        } else if i == 7 && j == 11 {
            assert(topic_table()[7].0.len() != topic_table()[11].0.len());
        } else if i == 7 && j == 12 {
            assert(topic_table()[7].0.len() != topic_table()[12].0.len());
        } else if i == 7 && j == 13 {
            assert(topic_table()[7].0.len() != topic_table()[13].0.len());
        } else if i == 7 && j == 14 {
            assert(topic_table()[7].0.len() != topic_table()[14].0.len());
        } else if i == 7 && j == 15 {
            assert(topic_table()[7].0[0] != topic_table()[15].0[0]);
        } else if i == 7 && j == 16 {
            assert(topic_table()[7].0.len() != topic_table()[16].0.len());
        } else if i == 7 && j == 17 {
            assert(topic_table()[7].0.len() != topic_table()[17].0.len());
        } else if i == 7 && j == 18 {
            assert(topic_table()[7].0[0] != topic_table()[18].0[0]);
        } else if i == 7 && j == 19 {
            assert(topic_table()[7].0.len() != topic_table()[19].0.len());
        } else if i == 7 && j == 20 {
            assert(topic_table()[7].0[0] != topic_table()[20].0[0]);
        } else if i == 7 && j == 21 {
            assert(topic_table()[7].0.len() != topic_table()[21].0.len());
        } else if i == 7 && j == 22 {
            assert(topic_table()[7].0.len() != topic_table()[22].0.len());
        } else if i == 8 && j == 9 {
            assert(topic_table()[8].0.len() != topic_table()[9].0.len());
        } else if i == 8 && j == 10 {
            assert(topic_table()[8].0[8] != topic_table()[10].0[8]);
        } else if i == 8 && j == 11 {
            assert(topic_table()[8].0.len() != topic_table()[11].0.len());
        } else if i == 8 && j == 12 {
            assert(topic_table()[8].0.len() != topic_table()[12].0.len());
        } else if i == 8 && j == 13 {
            assert(topic_table()[8].0.len() != topic_table()[13].0.len());
        } else if i == 8 && j == 14 {
            assert(topic_table()[8].0.len() != topic_table()[14].0.len());
        } else if i == 8 && j == 15 {
            assert(topic_table()[8].0.len() != topic_table()[15].0.len());
        } else if i == 8 && j == 16 {
            assert(topic_table()[8].0.len() != topic_table()[16].0.len());
        } else if i == 8 && j == 17 {
            assert(topic_table()[8].0.len() != topic_table()[17].0.len());
        } else if i == 8 && j == 18 {
            assert(topic_table()[8].0.len() != topic_table()[18].0.len());
        } else if i == 8 && j == 19 {
            assert(topic_table()[8].0.len() != topic_table()[19].0.len());
        } else if i == 8 && j == 20 {
            assert(topic_table()[8].0.len() != topic_table()[20].0.len());
        } else if i == 8 && j == 21 {
            assert(topic_table()[8].0.len() != topic_table()[21].0.len());
        } else if i == 8 && j == 22 {
            assert(topic_table()[8].0.len() != topic_table()[22].0.len());
        } else if i == 9 && j == 10 {
            assert(topic_table()[9].0.len() != topic_table()[10].0.len());
        } else if i == 9 && j == 11 {
            assert(topic_table()[9].0[8] != topic_table()[11].0[8]);
        } else if i == 9 && j == 12 {
            assert(topic_table()[9].0.len() != topic_table()[12].0.len());
        } else if i == 9 && j == 13 {
            assert(topic_table()[9].0.len() != topic_table()[13].0.len());
        } else if i == 9 && j == 14 {
            assert(topic_table()[9].0.len() != topic_table()[14].0.len());
        } else if i == 9 && j == 15 {
            assert(topic_table()[9].0.len() != topic_table()[15].0.len());
        } else if i == 9 && j == 16 {
            assert(topic_table()[9].0.len() != topic_table()[16].0.len());
        } else if i == 9 && j == 17 {
            assert(topic_table()[9].0.len() != topic_table()[17].0.len());
        } else if i == 9 && j == 18 {
            assert(topic_table()[9].0.len() != topic_table()[18].0.len());
        } else if i == 9 && j == 19 {
            assert(topic_table()[9].0.len() != topic_table()[19].0.len());
        } else if i == 9 && j == 20 {
            assert(topic_table()[9].0.len() != topic_table()[20].0.len());
        } else if i == 9 && j == 21 {
            assert(topic_table()[9].0.len() != topic_table()[21].0.len());
        } else if i == 9 && j == 22 {
            assert(topic_table()[9].0.len() != topic_table()[22].0.len());
        } else if i == 10 && j == 11 {
            assert(topic_table()[10].0.len() != topic_table()[11].0.len());
        } else if i == 10 && j == 12 {
            assert(topic_table()[10].0.len() != topic_table()[12].0.len());
        } else if i == 10 && j == 13 {
            assert(topic_table()[10].0.len() != topic_table()[13].0.len());
        } else if i == 10 && j == 14 {
            assert(topic_table()[10].0.len() != topic_table()[14].0.len());
        } else if i == 10 && j == 15 {
            assert(topic_table()[10].0.len() != topic_table()[15].0.len());
        } else if i == 10 && j == 16 {
            assert(topic_table()[10].0.len() != topic_table()[16].0.len());
        } else if i == 10 && j == 17 {
            assert(topic_table()[10].0.len() != topic_table()[17].0.len());
        } else if i == 10 && j == 18 {
            assert(topic_table()[10].0.len() != topic_table()[18].0.len());
        } else if i == 10 && j == 19 {
            assert(topic_table()[10].0.len() != topic_table()[19].0.len());
        } else if i == 10 && j == 20 {
            assert(topic_table()[10].0.len() != topic_table()[20].0.len());
        } else if i == 10 && j == 21 {
            assert(topic_table()[10].0.len() != topic_table()[21].0.len());
        } else if i == 10 && j == 22 {
            assert(topic_table()[10].0.len() != topic_table()[22].0.len());
        } else if i == 11 && j == 12 {
            assert(topic_table()[11].0.len() != topic_table()[12].0.len());
        } else if i == 11 && j == 13 {
            assert(topic_table()[11].0.len() != topic_table()[13].0.len());
        } else if i == 11 && j == 14 {
            assert(topic_table()[11].0.len() != topic_table()[14].0.len());
        } else if i == 11 && j == 15 {
            assert(topic_table()[11].0.len() != topic_table()[15].0.len());
        } else if i == 11 && j == 16 {
            assert(topic_table()[11].0.len() != topic_table()[16].0.len());
        } else if i == 11 && j == 17 {
            assert(topic_table()[11].0.len() != topic_table()[17].0.len());
        } else if i == 11 && j == 18 {
            assert(topic_table()[11].0.len() != topic_table()[18].0.len());
        } else if i == 11 && j == 19 {
            assert(topic_table()[11].0.len() != topic_table()[19].0.len());
        } else if i == 11 && j == 20 {
            assert(topic_table()[11].0.len() != topic_table()[20].0.len());
        } else if i == 11 && j == 21 {
            assert(topic_table()[11].0.len() != topic_table()[21].0.len());
        } else if i == 11 && j == 22 {
            assert(topic_table()[11].0.len() != topic_table()[22].0.len());
        } else if i == 12 && j == 13 {
            assert(topic_table()[12].0[8] != topic_table()[13].0[8]);
        } else if i == 12 && j == 14 {
            assert(topic_table()[12].0.len() != topic_table()[14].0.len());
        } else if i == 12 && j == 15 {
            assert(topic_table()[12].0.len() != topic_table()[15].0.len());
        } else if i == 12 && j == 16 {
            assert(topic_table()[12].0.len() != topic_table()[16].0.len());
        } else if i == 12 && j == 17 {
            assert(topic_table()[12].0.len() != topic_table()[17].0.len());
        } else if i == 12 && j == 18 {
            assert(topic_table()[12].0.len() != topic_table()[18].0.len());
        } else if i == 12 && j == 19 {
            assert(topic_table()[12].0.len() != topic_table()[19].0.len());
        } else if i == 12 && j == 20 {
            assert(topic_table()[12].0.len() != topic_table()[20].0.len());
        } else if i == 12 && j == 21 {
            assert(topic_table()[12].0.len() != topic_table()[21].0.len());
        } else if i == 12 && j == 22 {
            assert(topic_table()[12].0.len() != topic_table()[22].0.len());
        } else if i == 13 && j == 14 {
            assert(topic_table()[13].0.len() != topic_table()[14].0.len());
        } else if i == 13 && j == 15 {
            assert(topic_table()[13].0.len() != topic_table()[15].0.len());
        } else if i == 13 && j == 16 {
            assert(topic_table()[13].0.len() != topic_table()[16].0.len());
        } else if i == 13 && j == 17 {
            assert(topic_table()[13].0.len() != topic_table()[17].0.len());
        } else if i == 13 && j == 18 {
            assert(topic_table()[13].0.len() != topic_table()[18].0.len());
        } else if i == 13 && j == 19 {
            assert(topic_table()[13].0.len() != topic_table()[19].0.len());
        } else if i == 13 && j == 20 {
            assert(topic_table()[13].0.len() != topic_table()[20].0.len());
        } else if i == 13 && j == 21 {
            assert(topic_table()[13].0.len() != topic_table()[21].0.len());
        } else if i == 13 && j == 22 {
            assert(topic_table()[13].0.len() != topic_table()[22].0.len());
        } else if i == 14 && j == 15 {
            assert(topic_table()[14].0.len() != topic_table()[15].0.len());
        } else if i == 14 && j == 16 {
            assert(topic_table()[14].0.len() != topic_table()[16].0.len());
        } else if i == 14 && j == 17 {
            assert(topic_table()[14].0.len() != topic_table()[17].0.len());
        } else if i == 14 && j == 18 {
            assert(topic_table()[14].0.len() != topic_table()[18].0.len());
        } else if i == 14 && j == 19 {
            assert(topic_table()[14].0.len() != topic_table()[19].0.len());
        } else if i == 14 && j == 20 {
            assert(topic_table()[14].0.len() != topic_table()[20].0.len());
        } else if i == 14 && j == 21 {
            assert(topic_table()[14].0.len() != topic_table()[21].0.len());
        } else if i == 14 && j == 22 {
            assert(topic_table()[14].0.len() != topic_table()[22].0.len());
        } else if i == 15 && j == 16 {
            assert(topic_table()[15].0.len() != topic_table()[16].0.len());
        } else if i == 15 && j == 17 {
            assert(topic_table()[15].0.len() != topic_table()[17].0.len());
        } else if i == 15 && j == 18 {
            assert(topic_table()[15].0[0] != topic_table()[18].0[0]);
        } else if i == 15 && j == 19 {
            assert(topic_table()[15].0.len() != topic_table()[19].0.len());
        } else if i == 15 && j == 20 {
            assert(topic_table()[15].0[0] != topic_table()[20].0[0]);
        } else if i == 15 && j == 21 {
            assert(topic_table()[15].0.len() != topic_table()[21].0.len());
        } else if i == 15 && j == 22 {
            assert(topic_table()[15].0.len() != topic_table()[22].0.len());
        } else if i == 16 && j == 17 {
            assert(topic_table()[16].0[0] != topic_table()[17].0[0]);
        } else if i == 16 && j == 18 {
            assert(topic_table()[16].0.len() != topic_table()[18].0.len());
        } else if i == 16 && j == 19 {
            assert(topic_table()[16].0.len() != topic_table()[19].0.len());
        } else if i == 16 && j == 20 {
            assert(topic_table()[16].0.len() != topic_table()[20].0.len());
        } else if i == 16 && j == 21 {
            assert(topic_table()[16].0.len() != topic_table()[21].0.len());
        } else if i == 16 && j == 22 {
            assert(topic_table()[16].0.len() != topic_table()[22].0.len());
        } else if i == 17 && j == 18 {
            assert(topic_table()[17].0.len() != topic_table()[18].0.len());
        } else if i == 17 && j == 19 {
            assert(topic_table()[17].0.len() != topic_table()[19].0.len());
        } else if i == 17 && j == 20 {
            assert(topic_table()[17].0.len() != topic_table()[20].0.len());
        } else if i == 17 && j == 21 {
            assert(topic_table()[17].0.len() != topic_table()[21].0.len());
        } else if i == 17 && j == 22 {
            assert(topic_table()[17].0.len() != topic_table()[22].0.len());
        } else if i == 18 && j == 19 {
            assert(topic_table()[18].0.len() != topic_table()[19].0.len());
        } else if i == 18 && j == 20 {
            assert(topic_table()[18].0[0] != topic_table()[20].0[0]);
        } else if i == 18 && j == 21 {
            assert(topic_table()[18].0.len() != topic_table()[21].0.len());
        } else if i == 18 && j == 22 {
            assert(topic_table()[18].0.len() != topic_table()[22].0.len());
        } else if i == 19 && j == 20 {
            assert(topic_table()[19].0.len() != topic_table()[20].0.len());
        } else if i == 19 && j == 21 {
            assert(topic_table()[19].0.len() != topic_table()[21].0.len());
        } else if i == 19 && j == 22 {
            assert(topic_table()[19].0.len() != topic_table()[22].0.len());
        } else if i == 20 && j == 21 {
            assert(topic_table()[20].0.len() != topic_table()[21].0.len());
        } else if i == 20 && j == 22 {
            assert(topic_table()[20].0.len() != topic_table()[22].0.len());
        } else if i == 21 && j == 22 {
            assert(topic_table()[21].0.len() != topic_table()[22].0.len());
        }
    }
}

/// The slug of every topic finds that topic.
pub proof fn lemma_topic_lookup_finds_each(i: int)
    requires
        0 <= i < topic_table().len(),
    ensures
        spec_topic_index(topic_table()[i].0) == Some(i),
{
    lemma_topic_ids_unique();
    lemma_topic_index_unique(topic_table()[i].0, i);
}

/// The cross-link form of a topic: its own file name.
pub open spec fn spec_topic_link(id: Seq<char>) -> Seq<char> {
    id + ".md"@
}

/// How topics link to one another: the target's file name, `<slug>.md`.
pub fn topic_link(id: &str) -> (r: String)
    ensures
        r@ == spec_topic_link(id@),
{
    let mut s = owned(id);
    push_str(&mut s, ".md");
    s
}

/// A link made by [`topic_link`] names its topic again once the `.md`
/// suffix is taken off.
pub proof fn lemma_topic_link_round_trip(id: Seq<char>)
    ensures
        spec_topic_link(id).len() >= ".md"@.len(),
        spec_topic_link(id).subrange(0, spec_topic_link(id).len() - ".md"@.len()) == id,
        spec_topic_link(id).subrange(spec_topic_link(id).len() - ".md"@.len(), spec_topic_link(id).len() as int) == ".md"@,
{
    assert(spec_topic_link(id).subrange(0, id.len() as int) =~= id);
    assert(spec_topic_link(id).subrange(id.len() as int, spec_topic_link(id).len() as int) =~= ".md"@);
}

/// Whether a topic is offered in the current build: the web build hides
/// native-only topics.
pub fn topic_visible(topic: &HelpTopic, web: bool) -> (r: bool)
    ensures
        r == !(web && topic.native_only),
{
    !(web && topic.native_only)
}

/// Topics of a category that the current build offers, in table order.
pub fn topics_in(cat: HelpCategory, web: bool) -> (r: Vec<HelpTopic>)
    ensures
        r@.map_values(|t: HelpTopic| topic_view(t)) == topic_table().filter(
            |row: (Seq<char>, Seq<char>, HelpCategory, bool)| row.2 == cat && !(web && row.3),
        ),
{
    let all = topics();
    let ghost pred = |row: (Seq<char>, Seq<char>, HelpCategory, bool)| row.2 == cat && !(web && row.3);
    let mut out: Vec<HelpTopic> = Vec::new();
    let mut i: usize = 0;
    while i < all.len()
        invariant
            all@.len() == topic_table().len(),
            forall|k: int| 0 <= k < all@.len() ==> topic_view(#[trigger] all@[k]) == topic_table()[k],
            i <= all@.len(),
            pred == (|row: (Seq<char>, Seq<char>, HelpCategory, bool)| row.2 == cat && !(web && row.3)),
            out@.map_values(|t: HelpTopic| topic_view(t)) == topic_table().take(i as int).filter(pred),
        decreases all@.len() - i,
    {
        proof {
            assert(topic_table().take(i as int + 1) =~= topic_table().take(i as int).push(topic_table()[i as int]));
            topic_table().take(i as int).lemma_filter_push(topic_table()[i as int], pred);
            assert(topic_view(all@[i as int]) == topic_table()[i as int]);
        }
        let t = all[i];
        if t.category == cat && topic_visible(&t, web) {
            out.push(t);
            proof {
                assert(out@.map_values(|t: HelpTopic| topic_view(t)) =~= topic_table().take(i as int).filter(pred).push(topic_table()[i as int]));
            }
        }
        i = i + 1;
    }
    proof {
        assert(topic_table().take(topic_table().len() as int) =~= topic_table());
    }
    out
}

/// Whether the editor runs as the web build; this library is the native one.
pub fn is_web() -> (r: bool)
    ensures
        !r,
{
    false
}


/// Editing tools.
#[derive(Debug, Clone, Copy, PartialEq, Eq, Structural)]
pub enum ToolId {
    HeightBrush,
    TexturePaint,
    GroundTypePaint,
    VertexSculpt,
    Stamp,
    WallPlacement,
    ObjectSelect,
    ObjectPlace,
    Gateway,
    ScriptLabel,
}

/// Dockable panels.
#[derive(Debug, Clone, Copy, PartialEq, Eq, Structural)]
pub enum DockTab {
    Viewport,
    Terrain,
    TilesetBrowser,
    AssetBrowser,
    Hierarchy,
    Properties,
    Minimap,
    Validation,
    Balance,
    OutputLog,
    Unknown,
}

/// Pages of the settings window.
#[derive(Debug, Clone, Copy, PartialEq, Eq, Structural)]
pub enum SettingsPage {
    Keybindings,
    Viewport,
    Rendering,
    Problems,
    Maps,
    Game,
    AutoSave,
    About,
}

impl SettingsPage {
    /// Every settings page, in window order.
    pub fn all() -> (r: Vec<SettingsPage>)
        ensures
            r@.len() == 8,
            forall|p: SettingsPage| r@.contains(p),
    {
        let r = vec![
            SettingsPage::Keybindings,
            SettingsPage::Viewport,
            SettingsPage::Rendering,
            SettingsPage::Problems,
            SettingsPage::Maps,
            SettingsPage::Game,
            SettingsPage::AutoSave,
            SettingsPage::About,
        ];
        proof {
            assert forall|p: SettingsPage| r@.contains(p) by {
                match p {
                    SettingsPage::Keybindings => assert(r@[0] == p),
                    SettingsPage::Viewport => assert(r@[1] == p),
                    SettingsPage::Rendering => assert(r@[2] == p),
                    SettingsPage::Problems => assert(r@[3] == p),
                    SettingsPage::Maps => assert(r@[4] == p),
                    SettingsPage::Game => assert(r@[5] == p),
                    SettingsPage::AutoSave => assert(r@[6] == p),
                    SettingsPage::About => assert(r@[7] == p),
                }
            }
        }
        r
    }
}

pub open spec fn spec_topic_for_tool(tool: ToolId) -> Seq<char> {
    match tool {
        ToolId::HeightBrush => "terrain-height-brush"@,
        ToolId::TexturePaint => "terrain-texture-paint"@,
        ToolId::GroundTypePaint => "terrain-ground-types"@,
        ToolId::VertexSculpt => "terrain-vertex-sculpt"@,
        ToolId::Stamp => "terrain-stamp"@,
        ToolId::WallPlacement => "terrain-walls"@,
        ToolId::ObjectSelect | ToolId::ObjectPlace | ToolId::Gateway | ToolId::ScriptLabel => "objects"@,
    }
}

/// Topic for an active tool.
pub fn topic_for_tool(tool: ToolId) -> (r: &'static str)
    ensures
        r@ == spec_topic_for_tool(tool),
{
    match tool {
        ToolId::HeightBrush => "terrain-height-brush",
        ToolId::TexturePaint => "terrain-texture-paint",
        ToolId::GroundTypePaint => "terrain-ground-types",
        ToolId::VertexSculpt => "terrain-vertex-sculpt",
        ToolId::Stamp => "terrain-stamp",
        ToolId::WallPlacement => "terrain-walls",
        ToolId::ObjectSelect | ToolId::ObjectPlace | ToolId::Gateway | ToolId::ScriptLabel => "objects",
    }
}

pub open spec fn spec_topic_for_tab(tab: DockTab) -> Seq<char> {
    match tab {
        DockTab::Viewport => "interface-overview"@,
        DockTab::Terrain => "terrain"@,
        DockTab::TilesetBrowser => "terrain-ground-types"@,
        DockTab::AssetBrowser | DockTab::Hierarchy | DockTab::Properties => "objects"@,
        DockTab::Minimap => "minimap"@,
        DockTab::Validation => "validation"@,
        DockTab::Balance => "balance"@,
        DockTab::OutputLog | DockTab::Unknown => DEFAULT_TOPIC@,
    }
}

/// Topic for a focused panel.
pub fn topic_for_tab(tab: &DockTab) -> (r: &'static str)
    ensures
        r@ == spec_topic_for_tab(*tab),
{
    match tab {
        DockTab::Viewport => "interface-overview",
        DockTab::Terrain => "terrain",
        DockTab::TilesetBrowser => "terrain-ground-types",
        DockTab::AssetBrowser | DockTab::Hierarchy | DockTab::Properties => "objects",
        DockTab::Minimap => "minimap",
        DockTab::Validation => "validation",
        DockTab::Balance => "balance",
        DockTab::OutputLog | DockTab::Unknown => DEFAULT_TOPIC,
    }
}

pub open spec fn spec_topic_for_settings_page(page: SettingsPage) -> Seq<char> {
    match page {
        SettingsPage::Keybindings => "mouse-gestures"@,
        SettingsPage::Viewport | SettingsPage::Rendering => "settings-graphics"@,
        SettingsPage::Problems => "validation"@,
        SettingsPage::Maps => "maps-properties"@,
        SettingsPage::Game => "test-map"@,
        SettingsPage::AutoSave | SettingsPage::About => DEFAULT_TOPIC@,
    }
}

/// Topic for an open settings page.
pub fn topic_for_settings_page(page: SettingsPage) -> (r: &'static str)
    ensures
        r@ == spec_topic_for_settings_page(page),
{
    match page {
        SettingsPage::Keybindings => "mouse-gestures",
        SettingsPage::Viewport | SettingsPage::Rendering => "settings-graphics",
        SettingsPage::Problems => "validation",
        SettingsPage::Maps => "maps-properties",
        SettingsPage::Game => "test-map",
        SettingsPage::AutoSave | SettingsPage::About => DEFAULT_TOPIC,
    }
}

pub open spec fn spec_topic_for_context(
    settings_open: bool,
    settings_page: SettingsPage,
    focused_tab: Option<DockTab>,
    active_tool: ToolId,
) -> Seq<char> {
    if settings_open {
        spec_topic_for_settings_page(settings_page)
    } else {
        match focused_tab {
            Some(DockTab::Viewport) | None => spec_topic_for_tool(active_tool),
            Some(tab) => spec_topic_for_tab(tab),
        }
    }
}

/// Topic most relevant to where the user is: an open settings page first,
/// then the active tool while the viewport (or nothing) has focus, then the
/// focused panel.
pub fn topic_for_context(
    settings_open: bool,
    settings_page: SettingsPage,
    focused_tab: Option<DockTab>,
    active_tool: ToolId,
) -> (r: &'static str)
    ensures
        r@ == spec_topic_for_context(settings_open, settings_page, focused_tab, active_tool),
{
    if settings_open {
        return topic_for_settings_page(settings_page);
    }
    match focused_tab {
        Some(DockTab::Viewport) | None => topic_for_tool(active_tool),
        Some(tab) => topic_for_tab(&tab),
    }
}

/// Panels that carry a corner help button.
pub fn has_help_button(tab: &DockTab) -> (r: bool)
    ensures
        r == (*tab == DockTab::Terrain || *tab == DockTab::TilesetBrowser || *tab == DockTab::AssetBrowser
            || *tab == DockTab::Properties || *tab == DockTab::OutputLog || *tab == DockTab::Balance),
{
    match tab {
        DockTab::Terrain | DockTab::TilesetBrowser | DockTab::AssetBrowser | DockTab::Properties
        | DockTab::OutputLog | DockTab::Balance => true,
        _ => false,
    }
}

/// `id` names a topic of the table.
pub open spec fn is_topic_id(id: Seq<char>) -> bool {
    exists|i: int| 0 <= i < topic_table().len() && #[trigger] topic_table()[i].0 == id
}

proof fn lemma_is_topic_id_lookup(id: Seq<char>)
    requires
        is_topic_id(id),
    ensures
        spec_topic_index(id) is Some,
{
    let i = choose|i: int| 0 <= i < topic_table().len() && #[trigger] topic_table()[i].0 == id;
    lemma_topic_lookup_finds_each(i);
}

/// Every tool, panel and settings page leads to a topic that exists, and
/// so does the default topic.
pub proof fn lemma_context_topics_exist(tool: ToolId, tab: DockTab, page: SettingsPage)
    ensures
        spec_topic_index(spec_topic_for_tool(tool)) is Some,
        spec_topic_index(spec_topic_for_tab(tab)) is Some,
        spec_topic_index(spec_topic_for_settings_page(page)) is Some,
        spec_topic_index(DEFAULT_TOPIC@) is Some,
{
    let t = topic_table();
    assert(t[0].0 == DEFAULT_TOPIC@);
    assert(is_topic_id(DEFAULT_TOPIC@));
    lemma_is_topic_id_lookup(DEFAULT_TOPIC@);
    match tool {
        ToolId::HeightBrush => assert(t[8].0 == spec_topic_for_tool(tool)),
        ToolId::TexturePaint => assert(t[9].0 == spec_topic_for_tool(tool)),
        ToolId::GroundTypePaint => assert(t[10].0 == spec_topic_for_tool(tool)),
        ToolId::VertexSculpt => assert(t[11].0 == spec_topic_for_tool(tool)),
        ToolId::Stamp => assert(t[12].0 == spec_topic_for_tool(tool)),
        ToolId::WallPlacement => assert(t[13].0 == spec_topic_for_tool(tool)),
        _ => assert(t[15].0 == spec_topic_for_tool(tool)),
    }
    lemma_is_topic_id_lookup(spec_topic_for_tool(tool));
    match tab {
        DockTab::Viewport => assert(t[1].0 == spec_topic_for_tab(tab)),
        DockTab::Terrain => assert(t[7].0 == spec_topic_for_tab(tab)),
        DockTab::TilesetBrowser => assert(t[10].0 == spec_topic_for_tab(tab)),
        DockTab::AssetBrowser | DockTab::Hierarchy | DockTab::Properties => assert(t[15].0 == spec_topic_for_tab(tab)),
        DockTab::Minimap => assert(t[18].0 == spec_topic_for_tab(tab)),
        DockTab::Validation => assert(t[19].0 == spec_topic_for_tab(tab)),
        DockTab::Balance => assert(t[20].0 == spec_topic_for_tab(tab)),
        DockTab::OutputLog | DockTab::Unknown => assert(t[0].0 == spec_topic_for_tab(tab)),
    }
    lemma_is_topic_id_lookup(spec_topic_for_tab(tab));
    match page {
        SettingsPage::Keybindings => assert(t[2].0 == spec_topic_for_settings_page(page)),
        SettingsPage::Viewport | SettingsPage::Rendering => assert(t[21].0 == spec_topic_for_settings_page(page)),
        SettingsPage::Problems => assert(t[19].0 == spec_topic_for_settings_page(page)),
        SettingsPage::Maps => assert(t[5].0 == spec_topic_for_settings_page(page)),
        SettingsPage::Game => assert(t[22].0 == spec_topic_for_settings_page(page)),
        SettingsPage::AutoSave | SettingsPage::About => assert(t[0].0 == spec_topic_for_settings_page(page)),
    }
    lemma_is_topic_id_lookup(spec_topic_for_settings_page(page));
}

/// Help browser state: whether it is open, the topic shown, the search
/// query, the topics' markdown bodies and the search index built over them.
pub struct HelpState {
    pub open: bool,
    /// Slug of the topic shown.
    pub current: String,
    pub search_query: String,
    /// The topics' markdown bodies, in table order.
    pub bodies: Vec<String>,
    /// Built on the first non-blank query.
    pub search_index: Option<SearchIndex>,
}

impl HelpState {
    /// The topics' markdown bodies, in table order.
    pub open spec fn spec_bodies(&self) -> Seq<Seq<char>> {
        string_views(self.bodies@)
    }

    /// A built index is the index of the current bodies.
    pub open spec fn wf(&self) -> bool {
        match self.search_index {
            Some(ix) => ix.spec_entries() == built_index(string_views(self.bodies@)),
            None => true,
        }
    }

    /// A closed browser showing the default topic, with an empty query and
    /// no topic bodies yet.
    pub fn new() -> (r: Self)
        ensures
            !r.open,
            r.current@ == DEFAULT_TOPIC@,
            r.search_query@.len() == 0,
            r.spec_bodies().len() == 0,
            r.wf(),
    {
        HelpState {
            open: false,
            current: owned(DEFAULT_TOPIC),
            search_query: String::new(),
            bodies: Vec::new(),
            search_index: None,
        }
    }

    /// Hand the browser the topics' markdown bodies, in table order.
    pub fn set_topic_bodies(&mut self, bodies: Vec<String>)
        ensures
            final(self).spec_bodies() == string_views(bodies@),
            final(self).wf(),
            final(self).open == old(self).open,
            final(self).current == old(self).current,
            final(self).search_query == old(self).search_query,
    {
        self.bodies = bodies;
        self.search_index = None;
    }

    /// Ranked results for the current query, building the index on first
    /// use; nothing for a blank query.
    pub fn search_results(&mut self, web: bool) -> (r: Vec<SearchHit>)
        requires
            old(self).wf(),
        ensures
            final(self).wf(),
            final(self).spec_bodies() == old(self).spec_bodies(),
            final(self).open == old(self).open,
            final(self).current == old(self).current,
            final(self).search_query == old(self).search_query,
            ({
                let needle = lowercase(spec_trim(old(self).search_query@));
                &&& (spec_trim(old(self).search_query@).len() == 0 || needle.len() == 0) ==> r@.len() == 0
                &&& (spec_trim(old(self).search_query@).len() > 0 && needle.len() > 0) ==> hits_ok(
                    built_index(old(self).spec_bodies()),
                    needle,
                    web,
                    hits_view(r@),
                )
            }),
    {
        let trimmed = crate::help_search::trim(self.search_query.as_str());
        if trimmed.as_str().is_empty() {
            return Vec::new();
        }
        if self.search_index.is_none() {
            self.search_index = Some(SearchIndex::build(self.bodies.as_slice()));
        }
        match &self.search_index {
            Some(ix) => ix.query(self.search_query.as_str(), web),
            None => Vec::new(),
        }
    }

    /// Restore the starting topic; unknown slugs are ignored.
    pub fn set_initial_topic(&mut self, slug: &str)
        ensures
            final(self).current@ == (if spec_topic_index(slug@) is Some {
                slug@
            } else {
                old(self).current@
            }),
            final(self).open == old(self).open,
            final(self).search_query == old(self).search_query,
            final(self).bodies == old(self).bodies,
            final(self).search_index == old(self).search_index,
    {
        if topic_by_id(slug).is_some() {
            self.current = owned(slug);
        }
    }

    /// Show a topic; unknown slugs fall back to the default topic.
    pub fn navigate(&mut self, slug: &str)
        ensures
            final(self).current@ == (if spec_topic_index(slug@) is Some {
                slug@
            } else {
                DEFAULT_TOPIC@
            }),
            final(self).open == old(self).open,
            final(self).search_query == old(self).search_query,
            final(self).bodies == old(self).bodies,
            final(self).search_index == old(self).search_index,
    {
        if topic_by_id(slug).is_some() {
            self.current = owned(slug);
        } else {
            self.current = owned(DEFAULT_TOPIC);
        }
    }
}

/// Open the browser at a topic (F1 and the panel help buttons).
pub fn open_browser_at(help: &mut HelpState, slug: &str)
    ensures
        final(help).open,
        final(help).current@ == (if spec_topic_index(slug@) is Some {
            slug@
        } else {
            DEFAULT_TOPIC@
        }),
        final(help).search_query == old(help).search_query,
        final(help).bodies == old(help).bodies,
        final(help).search_index == old(help).search_index,
{
    help.open = true;
    help.navigate(slug);
}

/// Open the browser at the last topic viewed (the Help menu).
pub fn open_browser_home(help: &mut HelpState)
    ensures
        final(help).open,
        final(help).current == old(help).current,
        final(help).search_query == old(help).search_query,
        final(help).bodies == old(help).bodies,
        final(help).search_index == old(help).search_index,
{
    help.open = true;
}
} // verus!
