//! One server of tools: its address, and the tools of it that are enabled.

use vstd::prelude::*;

use crate::order::{ascending, same_texts, sorted_texts};
use crate::registry::names_among;
use crate::text::{
    holds_text, join, joined, lemma_views_push, trim, trimmed, view_option, views,
};

verus! {

broadcast use lemma_views_push;

/// The server of tools, if one is set, and the tools of it that are enabled.
#[derive(Debug, PartialEq, Eq)]
pub struct McpConfig {
    pub server_url: Option<String>,
    pub enabled_tools: Vec<String>,
}

/// The server of tools, mathematically.
pub ghost struct SingleModel {
    pub server_url: Option<Seq<char>>,
    pub enabled_tools: Seq<Seq<char>>,
}

impl View for McpConfig {
    type V = SingleModel;

    open spec fn view(&self) -> SingleModel {
        SingleModel {
            server_url: view_option(self.server_url),
            enabled_tools: views(self.enabled_tools@),
        }
    }
}

/// A tool of the server.
#[derive(Debug, PartialEq, Eq)]
pub struct McpToolInfo {
    pub name: String,
    pub description: Option<String>,
}

/// A tool of the server, mathematically.
pub ghost struct InfoModel {
    pub name: Seq<char>,
    pub description: Option<Seq<char>>,
}

impl View for McpToolInfo {
    type V = InfoModel;

    open spec fn view(&self) -> InfoModel {
        InfoModel { name: self.name@, description: view_option(self.description) }
    }
}

/// The names of tools.
pub open spec fn info_names(tools: Seq<InfoModel>) -> Seq<Seq<char>> {
    Seq::new(tools.len(), |i: int| tools[i].name)
}

/// Moves to another server: its tools start disabled.
pub fn switch_mcp_server(config: &mut McpConfig, url: String)
    ensures
        final(config)@ == (SingleModel {
            server_url: Some(url@),
            enabled_tools: Seq::empty(),
        }),
{
    config.server_url = Some(url);
    config.enabled_tools = Vec::new();
    proof {
        assert(views(config.enabled_tools@) =~= Seq::<Seq<char>>::empty());
    }
}

/// The names of enabled tools that the server still has, each once and in order.
pub fn reconcile_enabled_tools(available: &Vec<McpToolInfo>, enabled: &Vec<String>) -> (r: Vec<
    String,
>)
    ensures
        ascending(views(r@)),
        same_texts(views(r@), names_among(views(enabled@), info_names(views(available@)))),
{
    let ghost others = info_names(views(available@));
    let mut names: Vec<String> = Vec::new();
    let mut i: usize = 0;
    while i < available.len()
        invariant
            i <= available@.len(),
            others == info_names(views(available@)),
            views(names@) == others.take(i as int),
        decreases available.len() - i,
    {
        let name = available[i].name.clone();
        proof {
            assert(others.take(i as int).push(name@) =~= others.take(i + 1));
        }
        names.push(name);
        i += 1;
    }
    proof {
        assert(others.take(i as int) =~= others);
    }
    let ghost model = views(enabled@);
    let mut kept: Vec<String> = Vec::new();
    let mut j: usize = 0;
    proof {
        assert(model.take(0).len() == 0);
        assert(views(kept@) =~= Seq::<Seq<char>>::empty());
    }
    while j < enabled.len()
        invariant
            j <= enabled@.len(),
            model == views(enabled@),
            others == views(names@),
            views(kept@) == names_among(model.take(j as int), others),
        decreases enabled.len() - j,
    {
        proof {
            assert(model.take(j + 1).drop_last() =~= model.take(j as int));
            assert(model.take(j + 1).last() == enabled@[j as int]@);
        }
        if holds_text(names.as_slice(), enabled[j].as_str()) {
            kept.push(enabled[j].clone());
        }
        j += 1;
    }
    proof {
        assert(model.take(j as int) =~= model);
    }
    sorted_texts(&kept)
}

/// The names of the tools at these positions; a position without a tool is passed over.
pub open spec fn info_names_at(tools: Seq<InfoModel>, selected: Seq<usize>) -> Seq<Seq<char>>
    decreases selected.len(),
{
    if selected.len() == 0 {
        Seq::empty()
    } else if selected.last() < tools.len() {
        info_names_at(tools, selected.drop_last()).push(tools[selected.last() as int].name)
    } else {
        info_names_at(tools, selected.drop_last())
    }
}

/// The names of the tools at these positions, each once and in order.
pub fn selected_tool_names(tools: &Vec<McpToolInfo>, selected: &Vec<usize>) -> (r: Vec<String>)
    ensures
        ascending(views(r@)),
        same_texts(views(r@), info_names_at(views(tools@), selected@)),
{
    let ghost model = views(tools@);
    let mut names: Vec<String> = Vec::new();
    let mut i: usize = 0;
    proof {
        assert(selected@.take(0).len() == 0);
        assert(views(names@) =~= Seq::<Seq<char>>::empty());
    }
    while i < selected.len()
        invariant
            i <= selected@.len(),
            model == views(tools@),
            views(names@) == info_names_at(model, selected@.take(i as int)),
        decreases selected.len() - i,
    {
        proof {
            assert(selected@.take(i + 1).drop_last() =~= selected@.take(i as int));
            assert(selected@.take(i + 1).last() == selected@[i as int]);
        }
        let at = selected[i];
        if at < tools.len() {
            names.push(tools[at].name.clone());
        }
        i += 1;
    }
    proof {
        assert(selected@.take(i as int) =~= selected@);
    }
    sorted_texts(&names)
}

/// The address that was entered, if any was.
pub fn entered_address(value: &str) -> (r: Option<String>)
    ensures
        view_option(r) == if trim(value@).len() == 0 {
            None
        } else {
            Some(trim(value@))
        },
{
    let text = trimmed(value);
    if text.as_str().unicode_len() == 0 {
        None
    } else {
        Some(text)
    }
}

/// What follows a server that does not answer: another attempt with an address or without one, or the
/// end.
pub fn after_failed_connection(
    pending: Option<String>,
    action: Option<usize>,
    entered: Option<String>,
) -> (r: Option<Option<String>>)
    ensures
        match action {
            Some(0) => r == Some(pending),
            Some(1) => r == Some(entered),
            _ => r is None,
        },
{
    match action {
        Some(0) => Some(pending),
        Some(1) => Some(entered),
        _ => None,
    }
}

/// What is shown of the enabled tools.
pub fn enabled_text(config: &McpConfig) -> (r: String)
    ensures
        r@ == if config@.enabled_tools.len() == 0 {
            "нет"@
        } else {
            join(config@.enabled_tools, ", "@)
        },
{
    if config.enabled_tools.len() == 0 {
        "нет".to_owned()
    } else {
        joined(config.enabled_tools.as_slice(), ", ")
    }
}

/// The tools of one server are never enabled on another.
pub proof fn law_selection_ends_with_its_server(
    available: Seq<InfoModel>,
    enabled: Seq<Seq<char>>,
    result: Seq<Seq<char>>,
)
    requires
        same_texts(result, names_among(enabled, info_names(available))),
    ensures
        forall|name: Seq<char>| #[trigger]
            result.contains(name) ==> info_names(available).contains(name) && enabled.contains(
                name,
            ),
{
    assert forall|name: Seq<char>| #[trigger] result.contains(name) implies info_names(
        available,
    ).contains(name) && enabled.contains(name) by {
        assert(names_among(enabled, info_names(available)).contains(name));
        lemma_among(enabled, info_names(available), name);
    }
}

proof fn lemma_among(names: Seq<Seq<char>>, others: Seq<Seq<char>>, name: Seq<char>)
    requires
        names_among(names, others).contains(name),
    ensures
        names.contains(name),
        others.contains(name),
    decreases names.len(),
{
    if names.len() > 0 {
        let head = names_among(names.drop_last(), others);
        let all = names_among(names, others);
        let k = choose|k: int| 0 <= k < all.len() && all[k] == name;
        if k < head.len() {
            assert(head[k] == name);
            assert(head.contains(name));
            lemma_among(names.drop_last(), others, name);
            let m = choose|m: int| 0 <= m < names.drop_last().len() && names.drop_last()[m] == name;
            assert(names[m] == name);
        } else {
            assert(names[names.len() - 1] == name);
        }
    }
}

/// The tools that were picked are named in the order in which they were picked.
pub proof fn law_picked_tools_are_named(tools: Seq<InfoModel>, selected: Seq<usize>)
    requires
        forall|i: int| 0 <= i < selected.len() ==> (#[trigger] selected[i]) < tools.len(),
    ensures
        info_names_at(tools, selected).len() == selected.len(),
        forall|i: int|
            0 <= i < selected.len() ==> #[trigger] info_names_at(tools, selected)[i]
                == tools[selected[i] as int].name,
    decreases selected.len(),
{
    if selected.len() > 0 {
        let head = selected.drop_last();
        assert forall|i: int| 0 <= i < head.len() implies (#[trigger] head[i]) < tools.len() by {
            assert(head[i] == selected[i]);
        }
        law_picked_tools_are_named(tools, head);
        assert(selected[selected.len() - 1] < tools.len());
    }
}

} // verus!
