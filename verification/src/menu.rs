//! The board menu (`bbsmenu.json`): its accepted layouts, the grouping of
//! the older flat layout by category, the board tree shown in the sidebar,
//! and the category each board belongs to.

use vstd::prelude::*;
use crate::strmap::{keys_of, lookup_in, sorted_keys, StrMap};

verus! {

/// A board of the menu.
pub struct BoardEntry {
    pub board_name: String,
    pub url: String,
    pub directory_name: String,
}

pub struct BoardView {
    pub board_name: Seq<char>,
    pub url: Seq<char>,
    pub directory_name: Seq<char>,
}

impl DeepView for BoardEntry {
    type V = BoardView;

    open spec fn deep_view(&self) -> BoardView {
        BoardView {
            board_name: self.board_name@,
            url: self.url@,
            directory_name: self.directory_name@,
        }
    }
}

/// A category of the menu with its boards.
pub struct CategoryEntry {
    pub category_name: String,
    pub category_content: Vec<BoardEntry>,
}

pub struct CategoryView {
    pub category_name: Seq<char>,
    pub category_content: Seq<BoardView>,
}

impl DeepView for CategoryEntry {
    type V = CategoryView;

    open spec fn deep_view(&self) -> CategoryView {
        CategoryView {
            category_name: self.category_name@,
            category_content: self.category_content.deep_view(),
        }
    }
}

/// A board of the older flat layout, naming its category.
pub struct LegacyFlatBoardEntry {
    pub category_name: String,
    pub board_name: String,
    pub url: String,
    pub directory_name: String,
}

pub struct LegacyView {
    pub category_name: Seq<char>,
    pub board_name: Seq<char>,
    pub url: Seq<char>,
    pub directory_name: Seq<char>,
}

impl DeepView for LegacyFlatBoardEntry {
    type V = LegacyView;

    open spec fn deep_view(&self) -> LegacyView {
        LegacyView {
            category_name: self.category_name@,
            board_name: self.board_name@,
            url: self.url@,
            directory_name: self.directory_name@,
        }
    }
}

pub open spec fn board_of(e: LegacyView) -> BoardView {
    BoardView { board_name: e.board_name, url: e.url, directory_name: e.directory_name }
}

/// The boards of the flat list that name category `n`, in order.
pub open spec fn boards_named(flat: Seq<LegacyView>, n: Seq<char>) -> Seq<BoardView>
    decreases flat.len(),
{
    if flat.len() == 0 {
        seq![]
    } else if flat.last().category_name == n {
        boards_named(flat.drop_last(), n).push(board_of(flat.last()))
    } else {
        boards_named(flat.drop_last(), n)
    }
}

/// Some board of the flat list names category `n`.
pub open spec fn names_category(flat: Seq<LegacyView>, n: Seq<char>) -> bool {
    exists|i: int| 0 <= i < flat.len() && flat[i].category_name == n
}

pub open spec fn category_names(v: Seq<CategoryView>) -> Seq<Seq<char>> {
    v.map_values(|c: CategoryView| c.category_name)
}

/// The flat list grouped by category: one category per name, in name order,
/// each with its boards in list order.
pub open spec fn grouped(flat: Seq<LegacyView>, r: Seq<CategoryView>) -> bool {
    &&& sorted_keys(category_names(r))
    &&& forall|i: int| 0 <= i < r.len() ==> #[trigger] r[i].category_content == boards_named(
        flat,
        r[i].category_name,
    )
    &&& forall|n: Seq<char>| #[trigger] category_names(r).contains(n) <==> names_category(flat, n)
}

pub open spec fn lookup_boards(m: StrMap<Vec<BoardEntry>>, n: Seq<char>) -> Option<Seq<BoardView>> {
    match m.lookup(n) {
        Some(b) => Some(b.deep_view()),
        None => None,
    }
}

/// Groups the flat layout's boards by category.
pub fn group_legacy_boards(flat: Vec<LegacyFlatBoardEntry>) -> (r: Vec<CategoryEntry>)
    ensures
        grouped(flat.deep_view(), r.deep_view()),
{
    let ghost fv = flat.deep_view();
    let mut groups: StrMap<Vec<BoardEntry>> = StrMap::new();
    let mut rest = flat;
    let mut taken: usize = 0;
    let ghost n_total = fv.len();
    let mut rev: Vec<LegacyFlatBoardEntry> = Vec::new();
    while rest.len() > 0
        invariant
            rest.deep_view() + rev.deep_view().reverse() == fv,
        decreases rest.len(),
    {
        let ghost before_rest = rest.deep_view();
        let ghost before_rev = rev.deep_view();
        let e = rest.pop().unwrap();
        assert(rest.deep_view() =~= before_rest.drop_last());
        rev.push(e);
        assert(rev.deep_view() =~= before_rev.push(e.deep_view()));
        assert(rev.deep_view().reverse() =~= seq![e.deep_view()] + before_rev.reverse());
        assert(before_rest =~= before_rest.drop_last().push(e.deep_view()));
        assert(rest.deep_view() + rev.deep_view().reverse() =~= before_rest + before_rev.reverse());
    }
    assert(rev.deep_view().reverse() =~= fv);
    assert(n_total == rev.len());
    while rev.len() > 0
        invariant
            taken + rev.len() == n_total,
            rev.deep_view().len() == rev.len(),
            fv.len() == n_total,
            n_total <= usize::MAX,
            rev.deep_view().reverse() == fv.skip(taken as int),
            groups.wf(),
            forall|n: Seq<char>| #[trigger]
                lookup_boards(groups, n) == (if names_category(fv.take(taken as int), n) {
                    Some(boards_named(fv.take(taken as int), n))
                } else {
                    None::<Seq<BoardView>>
                }),
            forall|n: Seq<char>| #[trigger] groups.has(n) <==> names_category(fv.take(taken as int), n),
        decreases rev.len(),
    {
        let ghost before_rev = rev.deep_view();
        let e = rev.pop().unwrap();
        let ghost ev = e.deep_view();
        proof {
            assert(rev.deep_view() =~= before_rev.drop_last());
            assert(before_rev.reverse()[0] == ev);
            assert(fv[taken as int] == fv.skip(taken as int)[0]);
            assert(rev.deep_view().reverse() =~= fv.skip(taken + 1)) by {
                assert(fv.skip(taken as int).skip(1) =~= fv.skip(taken + 1));
                assert(before_rev.reverse().skip(1) =~= before_rev.drop_last().reverse());
            }
            assert(fv.take(taken + 1) =~= fv.take(taken as int).push(ev));
        }
        let LegacyFlatBoardEntry { category_name, board_name, url, directory_name } = e;
        let board = BoardEntry { board_name, url, directory_name };
        let ghost g0 = groups;
        let mut boards = match groups.remove(category_name.as_str()) {
            Some(b) => b,
            None => Vec::new(),
        };
        let ghost prev_boards = boards.deep_view();
        assert(prev_boards == (match lookup_boards(g0, ev.category_name) {
            Some(b) => b,
            None => Seq::<BoardView>::empty(),
        }));
        boards.push(board);
        assert(boards.deep_view() =~= prev_boards.push(board_of(ev)));
        let ghost nb = boards;
        assert(category_name@ == ev.category_name);
        groups.insert(category_name, boards);
        assert(lookup_boards(groups, ev.category_name) == Some(prev_boards.push(board_of(ev))));
        assert(forall|q: Seq<char>| q != ev.category_name ==> #[trigger] lookup_boards(groups, q) == lookup_boards(g0, q));
        taken += 1;
        proof {
            let pre = fv.take(taken - 1);
            let now = fv.take(taken as int);
            assert(now.drop_last() =~= pre);
            assert(now.last() == ev);
            assert forall|n: Seq<char>| #[trigger] boards_named(now, n) == (if n == ev.category_name {
                boards_named(pre, n).push(board_of(ev))
            } else {
                boards_named(pre, n)
            }) by {}
            assert forall|n: Seq<char>| #[trigger]
                lookup_boards(groups, n) == (if names_category(now, n) {
                    Some(boards_named(now, n))
                } else {
                    None::<Seq<BoardView>>
                }) by {
                if n == ev.category_name {
                    assert(names_category(now, n)) by {
                        assert(now[now.len() - 1].category_name == n);
                    }
                    if !names_category(pre, n) {
                        lemma_boards_named_absent(pre, n);
                    }
                } else {
                    assert(names_category(now, n) == names_category(pre, n)) by {
                        if names_category(now, n) {
                            let i = choose|i: int| 0 <= i < now.len() && now[i].category_name == n;
                            assert(i < pre.len());
                            assert(pre[i] == now[i]);
                        }
                        if names_category(pre, n) {
                            let i = choose|i: int| 0 <= i < pre.len() && pre[i].category_name == n;
                            assert(now[i] == pre[i]);
                        }
                    }
                }
            }
            assert forall|n: Seq<char>| #[trigger] groups.has(n) <==> names_category(now, n) by {
                if n != ev.category_name {
                    if names_category(now, n) {
                        let i = choose|i: int| 0 <= i < now.len() && now[i].category_name == n;
                        assert(i < pre.len());
                        assert(pre[i] == now[i]);
                    }
                    if names_category(pre, n) {
                        let i = choose|i: int| 0 <= i < pre.len() && pre[i].category_name == n;
                        assert(now[i] == pre[i]);
                    }
                } else {
                    assert(now[now.len() - 1].category_name == n);
                }
            }
        }
    }
    assert(fv.take(n_total as int) =~= fv);
    collect_categories(groups, Ghost(fv))
}

proof fn lemma_boards_named_absent(flat: Seq<LegacyView>, n: Seq<char>)
    requires
        !names_category(flat, n),
    ensures
        boards_named(flat, n) == Seq::<BoardView>::empty(),
    decreases flat.len(),
{
    if flat.len() > 0 {
        assert(flat.last() == flat[flat.len() - 1]);
        assert(!names_category(flat.drop_last(), n)) by {
            if names_category(flat.drop_last(), n) {
                let i = choose|i: int| 0 <= i < flat.drop_last().len() && flat.drop_last()[i].category_name == n;
                assert(flat[i] == flat.drop_last()[i]);
            }
        }
        lemma_boards_named_absent(flat.drop_last(), n);
    }
}

/// The categories of a finished grouping, in key order.
fn collect_categories(groups: StrMap<Vec<BoardEntry>>, Ghost(fv): Ghost<Seq<LegacyView>>) -> (r: Vec<
    CategoryEntry,
>)
    requires
        groups.wf(),
        forall|n: Seq<char>| #[trigger]
            lookup_boards(groups, n) == (if names_category(fv, n) {
                Some(boards_named(fv, n))
            } else {
                None::<Seq<BoardView>>
            }),
        forall|n: Seq<char>| #[trigger] groups.has(n) <==> names_category(fv, n),
    ensures
        grouped(fv, r.deep_view()),
{
    let ghost e = groups.entries_view();
    let ghost ks = keys_of(e);
    let mut out: Vec<CategoryEntry> = Vec::new();
    let es = groups.entries();
    let mut i: usize = 0;
    while i < es.len()
        invariant
            i <= es@.len(),
            es@ == e,
            ks == keys_of(e),
            sorted_keys(ks),
            out.deep_view().len() == i,
            forall|j: int| 0 <= j < i ==> #[trigger] out.deep_view()[j].category_name == ks[j],
            forall|j: int| 0 <= j < i ==> #[trigger] out.deep_view()[j].category_content == e[j].1.deep_view(),
        decreases es.len() - i,
    {
        let name = es[i].0.clone();
        let boards = clone_boards(&es[i].1);
        let ghost before = out.deep_view();
        out.push(CategoryEntry { category_name: name, category_content: boards });
        assert(out.deep_view() =~= before.push(CategoryView { category_name: ks[i as int], category_content: e[i as int].1.deep_view() }));
        i += 1;
    }
    proof {
        let ov = out.deep_view();
        assert(category_names(ov) =~= ks);
        assert forall|j: int| 0 <= j < ov.len() implies #[trigger] ov[j].category_content
            == boards_named(fv, ov[j].category_name) by {
            crate::strmap::lemma_lookup_at(e, j);
            assert(ks[j] == e[j].0@);
            assert(lookup_boards(groups, ks[j]) == Some(e[j].1.deep_view()));
            assert(groups.has(ks[j]));
        }
        assert forall|n: Seq<char>| #[trigger] category_names(ov).contains(n) <==> names_category(fv, n) by {
            assert(groups.has(n) == ks.contains(n));
        }
    }
    out
}

fn clone_boards(v: &Vec<BoardEntry>) -> (r: Vec<BoardEntry>)
    ensures
        r.deep_view() == v.deep_view(),
{
    let mut r: Vec<BoardEntry> = Vec::new();
    let mut i: usize = 0;
    while i < v.len()
        invariant
            i <= v.len(),
            r.deep_view() == v.deep_view().take(i as int),
        decreases v.len() - i,
    {
        let b = BoardEntry {
            board_name: v[i].board_name.clone(),
            url: v[i].url.clone(),
            directory_name: v[i].directory_name.clone(),
        };
        let ghost before = r.deep_view();
        r.push(b);
        assert(r.deep_view() =~= before.push(b.deep_view()));
        assert(v.deep_view().take(i + 1) =~= v.deep_view().take(i as int).push(v.deep_view()[i as int]));
        i += 1;
    }
    assert(v.deep_view().take(v.len() as int) =~= v.deep_view());
    r
}

pub open spec fn msg_menu_unknown() -> Seq<char> {
    "bbsmenu.json の形式が想定外です"@
}

/// The categories of a menu, from whichever layout it was read in: the
/// current layout (`menu_list`), a bare list of categories, or the older
/// flat list of boards (grouped by category); tried in that order.
pub fn bbsmenu_from_parsed(
    menu_list: Option<Vec<CategoryEntry>>,
    categories: Option<Vec<CategoryEntry>>,
    flat: Option<Vec<LegacyFlatBoardEntry>>,
) -> (r: Result<Vec<CategoryEntry>, String>)
    ensures
        match (menu_list, categories, flat) {
            (Some(m), _, _) => r matches Ok(c) && c.deep_view() == m.deep_view(),
            (None, Some(m), _) => r matches Ok(c) && c.deep_view() == m.deep_view(),
            (None, None, Some(f)) => r matches Ok(c) && grouped(f.deep_view(), c.deep_view()),
            (None, None, None) => r matches Err(e) && e@ == msg_menu_unknown(),
        },
{
    if let Some(m) = menu_list {
        return Ok(m);
    }
    if let Some(c) = categories {
        return Ok(c);
    }
    if let Some(f) = flat {
        return Ok(group_legacy_boards(f));
    }
    Err("bbsmenu.json の形式が想定外です".to_owned())
}

/// A board in the board tree: its URL as the node's id and its name.
pub struct BoardNode {
    pub id: String,
    pub label: String,
}

/// A category in the board tree, open or closed, with its boards.
pub struct CategoryNode {
    pub id: String,
    pub label: String,
    pub expanded: bool,
    pub children: Vec<BoardNode>,
}

pub struct CategoryNodeView {
    pub id: Seq<char>,
    pub label: Seq<char>,
    pub expanded: bool,
    pub children: Seq<(Seq<char>, Seq<char>)>,
}

impl DeepView for CategoryNode {
    type V = CategoryNodeView;

    open spec fn deep_view(&self) -> CategoryNodeView {
        CategoryNodeView {
            id: self.id@,
            label: self.label@,
            expanded: self.expanded,
            children: self.children@.map_values(|b: BoardNode| node_pair(b)),
        }
    }
}

pub open spec fn node_pair(b: BoardNode) -> (Seq<char>, Seq<char>) {
    (b.id@, b.label@)
}

pub open spec fn board_pair(b: BoardView) -> (Seq<char>, Seq<char>) {
    (b.url, b.board_name)
}

/// The tree node of a category: named by the category, open when the
/// category is, each board named by its URL and labelled with its name.
pub open spec fn node_of(c: CategoryView, open: bool) -> CategoryNodeView {
    CategoryNodeView {
        id: c.category_name,
        label: c.category_name,
        expanded: open,
        children: c.category_content.map_values(|b: BoardView| board_pair(b)),
    }
}

/// The board tree of the menu's categories.
pub fn build_tree_items(categories: &Vec<CategoryEntry>, expanded_categories: &StrMap<bool>) -> (r:
    Vec<CategoryNode>)
    requires
        expanded_categories.wf(),
    ensures
        r.deep_view().len() == categories.deep_view().len(),
        forall|i: int|
            0 <= i < r.deep_view().len() ==> #[trigger] r.deep_view()[i] == node_of(
                categories.deep_view()[i],
                expanded_categories.has(categories.deep_view()[i].category_name),
            ),
{
    let mut out: Vec<CategoryNode> = Vec::new();
    let mut i: usize = 0;
    while i < categories.len()
        invariant
            i <= categories@.len(),
            expanded_categories.wf(),
            out.deep_view().len() == i,
            forall|k: int|
                0 <= k < i ==> #[trigger] out.deep_view()[k] == node_of(
                    categories.deep_view()[k],
                    expanded_categories.has(categories.deep_view()[k].category_name),
                ),
        decreases categories@.len() - i,
    {
        let cat = &categories[i];
        let mut children: Vec<BoardNode> = Vec::new();
        let mut j: usize = 0;
        while j < cat.category_content.len()
            invariant
                j <= cat.category_content@.len(),
                children@.map_values(|b: BoardNode| node_pair(b)) == cat.category_content.deep_view().take(
                    j as int,
                ).map_values(|b: BoardView| board_pair(b)),
            decreases cat.category_content@.len() - j,
        {
            let b = &cat.category_content[j];
            let ghost before = children@;
            let bn = BoardNode { id: b.url.clone(), label: b.board_name.clone() };
            children.push(bn);
            assert(children@ =~= before.push(bn));
            assert(cat.category_content.deep_view().take(j + 1) =~= cat.category_content.deep_view().take(j as int).push(cat.category_content.deep_view()[j as int]));
            assert(node_pair(bn) == board_pair(cat.category_content.deep_view()[j as int]));
            assert(children@.map_values(|b: BoardNode| node_pair(b)) =~= before.map_values(|b: BoardNode| node_pair(b)).push(node_pair(bn)));
            assert(cat.category_content.deep_view().take(j + 1).map_values(|b: BoardView| board_pair(b)) =~= cat.category_content.deep_view().take(j as int).map_values(|b: BoardView| board_pair(b)).push(board_pair(cat.category_content.deep_view()[j as int])));
            assert(children@.map_values(|b: BoardNode| node_pair(b)) =~= cat.category_content.deep_view().take(
                j + 1,
            ).map_values(|b: BoardView| board_pair(b)));
            j += 1;
        }
        assert(cat.category_content.deep_view().take(j as int) =~= cat.category_content.deep_view());
        let expanded = expanded_categories.contains_key(cat.category_name.as_str());
        let node = CategoryNode {
            id: cat.category_name.clone(),
            label: cat.category_name.clone(),
            expanded,
            children,
        };
        let ghost before = out.deep_view();
        out.push(node);
        assert(out.deep_view() =~= before.push(node.deep_view()));
        i += 1;
    }
    out
}

/// The category of a board: that of the last category listing the board's
/// URL.
pub open spec fn category_of(cats: Seq<CategoryView>, url: Seq<char>) -> Option<Seq<char>>
    decreases cats.len(),
{
    if cats.len() == 0 {
        None
    } else if exists|j: int|
        0 <= j < cats.last().category_content.len()
            && #[trigger] cats.last().category_content[j].url == url {
        Some(cats.last().category_name)
    } else {
        category_of(cats.drop_last(), url)
    }
}

pub open spec fn opt_string_view(o: Option<String>) -> Option<Seq<char>> {
    match o {
        Some(s) => Some(s@),
        None => None,
    }
}

/// The category of each board of the menu, by the board's URL.
pub fn board_categories(categories: &Vec<CategoryEntry>) -> (m: StrMap<String>)
    ensures
        m.wf(),
        forall|url: Seq<char>| #[trigger] opt_string_view(m.lookup(url)) == category_of(
            categories.deep_view(),
            url,
        ),
{
    let mut m: StrMap<String> = StrMap::new();
    let ghost cv = categories.deep_view();
    let mut i: usize = 0;
    while i < categories.len()
        invariant
            i <= categories@.len(),
            cv == categories.deep_view(),
            m.wf(),
            forall|url: Seq<char>| #[trigger] opt_string_view(m.lookup(url)) == category_of(
                cv.take(i as int),
                url,
            ),
        decreases categories@.len() - i,
    {
        let cat = &categories[i];
        let ghost m0 = m;
        let ghost bv = cat.category_content.deep_view();
        let mut j: usize = 0;
        while j < cat.category_content.len()
            invariant
                j <= cat.category_content@.len(),
                bv == cat.category_content.deep_view(),
                m.wf(),
                forall|url: Seq<char>| #[trigger] opt_string_view(m.lookup(url)) == (if exists|k: int|
                    0 <= k < j && #[trigger] bv[k].url == url {
                    Some(cat.category_name@)
                } else {
                    opt_string_view(m0.lookup(url))
                }),
            decreases cat.category_content@.len() - j,
        {
            let b = &cat.category_content[j];
            m.insert(b.url.clone(), cat.category_name.clone());
            proof {
                assert forall|url: Seq<char>| #[trigger] opt_string_view(m.lookup(url)) == (if exists|k: int|
                    0 <= k < j + 1 && #[trigger] bv[k].url == url {
                    Some(cat.category_name@)
                } else {
                    opt_string_view(m0.lookup(url))
                }) by {
                    if url == bv[j as int].url {
                        assert(bv[j as int].url == url);
                    } else {
                        if exists|k: int| 0 <= k < j + 1 && #[trigger] bv[k].url == url {
                            let k = choose|k: int| 0 <= k < j + 1 && #[trigger] bv[k].url == url;
                            assert(k < j);
                        }
                    }
                }
            }
            j += 1;
        }
        proof {
            let t = cv.take(i + 1);
            assert(t.drop_last() =~= cv.take(i as int));
            assert(t.last() == cv[i as int]);
            assert(cv[i as int].category_content == bv);
        }
        i += 1;
    }
    assert(cv.take(i as int) =~= cv);
    m
}

} // verus!
