//! What `ls` prints for one directory operand and for one file operand.

use vstd::prelude::*;
use vstd::string::*;
use crate::entry::{
    calculate_max_widths, entry_spec, format_entry, result_view, widths_match, widths_of, EntryInfo,
    LsOptions, MaxWidths,
};
use crate::vecs::reversed;
use crate::output::{concat4, emit, emits_view, err_line, out_line, out_text, stderr_line, stdout_line, Emit};
use crate::sorting::{sort_items, sorted_listing, DirItem};
use crate::text::{dec, decimal, trim_end, trim_end_spec};

verus! {

/// What reading a directory gave.
pub enum DirListing {
    /// Opening the directory failed with this error text.
    ReadFailed(String),
    /// Reading its entries failed with this error text.
    CollectFailed(String),
    /// Its entries, in the order the directory gave them.
    Items(Vec<DirItem>),
}

/// A directory operand: its entries, and what `.` and `..` inside it are
/// (when their metadata could be read).
pub struct DirFacts {
    pub listing: DirListing,
    pub dot: Option<EntryInfo>,
    pub dotdot: Option<EntryInfo>,
}

/// A name is listed unless it starts with a dot and `-a` is not given.
pub open spec fn visible(name: Seq<char>, show_hidden: bool) -> bool {
    show_hidden || !(name.len() > 0 && name[0] == '.')
}

/// The `.` and `..` entries listed first under `-a`.
pub open spec fn special_entries(dot: Option<EntryInfo>, dotdot: Option<EntryInfo>, show_hidden: bool) -> Seq<(Seq<char>, EntryInfo)> {
    if !show_hidden {
        Seq::empty()
    } else {
        let a: Seq<(Seq<char>, EntryInfo)> = match dot {
            Some(e) => seq![("."@, e)],
            None => Seq::empty(),
        };
        let b: Seq<(Seq<char>, EntryInfo)> = match dotdot {
            Some(e) => seq![(".."@, e)],
            None => Seq::empty(),
        };
        a + b
    }
}

/// The listed entries of `items` (in their order) and the messages for
/// listed names whose metadata could not be read.
pub open spec fn collect_items(items: Seq<DirItem>, show_hidden: bool) -> (Seq<(Seq<char>, EntryInfo)>, Seq<Seq<char>>)
    decreases items.len(),
{
    if items.len() == 0 {
        (Seq::empty(), Seq::empty())
    } else {
        let (es, errs) = collect_items(items.drop_last(), show_hidden);
        let it = items.last();
        if !visible(it.name@, show_hidden) {
            (es, errs)
        } else {
            match it.metadata {
                Ok(e) => (es.push((it.name@, e)), errs),
                Err(t) => (es, errs.push("ls: error reading metadata for '"@ + it.name@ + "': "@ + t@)),
            }
        }
    }
}

/// Blocks of the listed entries of `items`.
pub open spec fn item_blocks(items: Seq<DirItem>, show_hidden: bool) -> nat
    decreases items.len(),
{
    if items.len() == 0 {
        0
    } else {
        let it = items.last();
        item_blocks(items.drop_last(), show_hidden) + if visible(it.name@, show_hidden) && it.metadata is Ok {
            it.metadata->Ok_0.blocks as nat
        } else {
            0
        }
    }
}

pub open spec fn entries_blocks(es: Seq<(Seq<char>, EntryInfo)>) -> nat
    decreases es.len(),
{
    if es.len() == 0 {
        0
    } else {
        entries_blocks(es.drop_last()) + es.last().1.blocks as nat
    }
}

pub open spec fn infos(es: Seq<(Seq<char>, EntryInfo)>) -> Seq<EntryInfo> {
    Seq::new(es.len(), |i: int| es[i].1)
}

/// The column widths for `es`.
pub open spec fn widths_for(es: Seq<(Seq<char>, EntryInfo)>) -> MaxWidths {
    let (l, u, g, z) = widths_of(infos(es));
    MaxWidths { max_links: l as usize, max_user: u as usize, max_group: g as usize, max_size: z as usize }
}

/// The concatenated renderings of `es` and the errors met rendering them.
pub open spec fn render_entries(es: Seq<(Seq<char>, EntryInfo)>, options: LsOptions, w: MaxWidths) -> (Seq<char>, Seq<Seq<char>>)
    decreases es.len(),
{
    if es.len() == 0 {
        (Seq::empty(), Seq::empty())
    } else {
        let (res, errs) = render_entries(es.drop_last(), options, w);
        match entry_spec(es.last().0, es.last().1, options, w) {
            Ok(r) => (res + r, errs),
            Err(m) => (res, errs.push(m)),
        }
    }
}

pub open spec fn err_lines(msgs: Seq<Seq<char>>, prefix: Seq<char>) -> Seq<(bool, Seq<char>)> {
    Seq::new(msgs.len(), |i: int| err_line(prefix + msgs[i]))
}

/// Output for a readable directory whose entries, in listing order, are `sorted`.
pub open spec fn items_output(
    path: Seq<char>,
    items: Seq<DirItem>,
    sorted: Seq<DirItem>,
    dot: Option<EntryInfo>,
    dotdot: Option<EntryInfo>,
    options: LsOptions,
    more_paths: bool,
) -> Seq<(bool, Seq<char>)> {
    let sh = options.show_hidden;
    let (listed, meta_errs) = collect_items(sorted, sh);
    let es = special_entries(dot, dotdot, sh) + listed;
    let total = entries_blocks(special_entries(dot, dotdot, sh)) + item_blocks(items, sh);
    let (res, date_errs) = render_entries(es, options, widths_for(es));
    (if more_paths { seq![out_line(path + ":"@)] } else { Seq::empty() })
        + err_lines(meta_errs, Seq::empty())
        + (if options.long_format { seq![out_line("total "@ + dec(total / 2))] } else { Seq::empty() })
        + err_lines(date_errs, "ls: "@)
        + (if res.len() > 0 { seq![out_line(trim_end_spec(res))] } else { Seq::empty() })
}

/// What `ls` prints for the directory operand `path`.
pub open spec fn directory_output(path: Seq<char>, facts: DirFacts, options: LsOptions, more_paths: bool, out: Seq<(bool, Seq<char>)>) -> bool {
    match facts.listing {
        DirListing::ReadFailed(t) => out == seq![err_line("ls: cannot access '"@ + path + "': "@ + t@)],
        DirListing::CollectFailed(t) => out == seq![err_line("ls: error reading directory '"@ + path + "': "@ + t@)],
        DirListing::Items(items) => exists|sorted: Seq<DirItem>|
            sorted_listing(items@, sorted) && out == items_output(path, items@, sorted, facts.dot, facts.dotdot, options, more_paths),
    }
}

/// Listing `facts` cannot panic: under `-l` every listed entry has a mode
/// of at least `0o100`, and the block total fits in 64 bits.
pub open spec fn listing_allowed(facts: DirFacts, options: LsOptions) -> bool {
    match facts.listing {
        DirListing::Items(items) => {
            let sh = options.show_hidden;
            let specials = special_entries(facts.dot, facts.dotdot, sh);
            &&& entries_blocks(specials) + item_blocks(items@, sh) <= u64::MAX
            &&& options.long_format ==> forall|k: int| 0 <= k < specials.len() ==> #[trigger] specials[k].1.mode >= 64
            &&& options.long_format ==> forall|k: int| 0 <= k < items@.len()
                && visible(#[trigger] items@[k].name@, sh) && items@[k].metadata is Ok
                ==> items@[k].metadata->Ok_0.mode >= 64
        },
        _ => true,
    }
}

proof fn lemma_item_blocks_prefix(items: Seq<DirItem>, k: int, sh: bool)
    requires
        0 <= k <= items.len(),
    ensures
        item_blocks(items.subrange(0, k), sh) <= item_blocks(items, sh),
    decreases items.len() - k,
{
    if k < items.len() {
        lemma_item_blocks_prefix(items, k + 1, sh);
        assert(items.subrange(0, k + 1).drop_last() =~= items.subrange(0, k));
    } else {
        assert(items.subrange(0, k) =~= items);
    }
}

proof fn lemma_collect_modes(sorted: Seq<DirItem>, sh: bool)
    requires
        forall|k: int| 0 <= k < sorted.len() && visible(#[trigger] sorted[k].name@, sh) && sorted[k].metadata is Ok
            ==> sorted[k].metadata->Ok_0.mode >= 64,
    ensures
        forall|j: int| 0 <= j < collect_items(sorted, sh).0.len() ==> #[trigger] collect_items(sorted, sh).0[j].1.mode >= 64,
    decreases sorted.len(),
{
    if sorted.len() > 0 {
        let init = sorted.drop_last();
        assert forall|k: int| 0 <= k < init.len() && visible(#[trigger] init[k].name@, sh) && init[k].metadata is Ok
            implies init[k].metadata->Ok_0.mode >= 64 by {
            assert(init[k] == sorted[k]);
        }
        lemma_collect_modes(init, sh);
        assert(sorted.last() == sorted[sorted.len() - 1]);
    }
}

fn collect_one(it: DirItem, sh: bool, names: &mut Vec<String>, infos_v: &mut Vec<EntryInfo>, out: &mut Vec<Emit>)
    ensures
        visible(it.name@, sh) && it.metadata is Ok ==> {
            &&& final(names)@ == old(names)@.push(it.name)
            &&& final(infos_v)@ == old(infos_v)@.push(it.metadata->Ok_0)
            &&& final(out)@ == old(out)@
        },
        visible(it.name@, sh) && it.metadata is Err ==> {
            &&& final(names)@ == old(names)@
            &&& final(infos_v)@ == old(infos_v)@
            &&& emits_view(final(out)@) == emits_view(old(out)@).push(err_line(
                "ls: error reading metadata for '"@ + it.name@ + "': "@ + it.metadata->Err_0@))
        },
        !visible(it.name@, sh) ==> {
            &&& final(names)@ == old(names)@
            &&& final(infos_v)@ == old(infos_v)@
            &&& final(out)@ == old(out)@
        },
{
    let DirItem { name, metadata } = it;
    if sh || !starts_with_dot(name.as_str()) {
        match metadata {
            Ok(e) => {
                names.push(name);
                infos_v.push(e);
            },
            Err(t) => {
                let m = concat4("ls: error reading metadata for '", name.as_str(), "': ", t.as_str());
                emit(out, stderr_line(m));
            },
        }
    }
}

/// Pairs `names`/`infos` hold `es`, in order.
pub open spec fn holds_entries(names: Seq<String>, infos_v: Seq<EntryInfo>, es: Seq<(Seq<char>, EntryInfo)>) -> bool {
    &&& names.len() == es.len()
    &&& infos_v.len() == es.len()
    &&& forall|j: int| 0 <= j < es.len() ==> #[trigger] names[j]@ == es[j].0 && infos_v[j] == es[j].1
}

#[verifier::spinoff_prover]
#[verifier::rlimit(40)]
fn collect_listed(
    sorted: Vec<DirItem>,
    sh: bool,
    names: &mut Vec<String>,
    infos_v: &mut Vec<EntryInfo>,
    out: &mut Vec<Emit>,
    Ghost(before): Ghost<Seq<(Seq<char>, EntryInfo)>>,
)
    requires
        holds_entries(old(names)@, old(infos_v)@, before),
    ensures
        holds_entries(final(names)@, final(infos_v)@, before + collect_items(sorted@, sh).0),
        emits_view(final(out)@) == emits_view(old(out)@) + err_lines(collect_items(sorted@, sh).1, Seq::empty()),
{
    let ghost sorted0 = sorted@;
    let ghost out0 = emits_view(out@);
    let _n = sorted.len();
    let mut rev = reversed(sorted);
    let mut k: usize = 0;
    proof {
        assert(sorted0.subrange(0, 0) =~= Seq::<DirItem>::empty());
        assert(before + Seq::<(Seq<char>, EntryInfo)>::empty() =~= before);
        assert(err_lines(Seq::empty(), Seq::empty()) =~= Seq::<(bool, Seq<char>)>::empty());
        assert(out0 + Seq::<(bool, Seq<char>)>::empty() =~= out0);
    }
    while rev.len() > 0
        invariant
            sorted0.len() <= usize::MAX,
            k + rev@.len() == sorted0.len(),
            rev@ == sorted0.subrange(k as int, sorted0.len() as int).reverse(),
            holds_entries(names@, infos_v@, before + collect_items(sorted0.subrange(0, k as int), sh).0),
            emits_view(out@) == out0 + err_lines(collect_items(sorted0.subrange(0, k as int), sh).1, Seq::empty()),
        decreases rev@.len(),
    {
        let it = rev.pop().unwrap();
        let ghost it_g = sorted0[k as int];
        let ghost names_before = names@;
        let ghost infos_before = infos_v@;
        let ghost (listed_before, errs_before) = collect_items(sorted0.subrange(0, k as int), sh);
        proof {
            assert(it == it_g);
            let pre = sorted0.subrange(0, k + 1);
            assert(pre.drop_last() =~= sorted0.subrange(0, k as int));
            assert(pre.last() == it_g);
        }
        collect_one(it, sh, names, infos_v, out);
        proof {
            let (listed_after, errs_after) = collect_items(sorted0.subrange(0, k + 1), sh);
            let es_before = before + listed_before;
            let es = before + listed_after;
            if visible(it_g.name@, sh) && it_g.metadata is Ok {
                assert(es =~= es_before.push((it_g.name@, it_g.metadata->Ok_0)));
                assert forall|j: int| 0 <= j < es.len() implies #[trigger] names@[j]@ == es[j].0 && infos_v@[j] == es[j].1 by {
                    if j < es_before.len() {
                        assert(names@[j] == names_before[j]);
                    }
                }
            } else if visible(it_g.name@, sh) {
                let msg = "ls: error reading metadata for '"@ + it_g.name@ + "': "@ + it_g.metadata->Err_0@;
                assert(listed_after == listed_before);
                assert(errs_after == errs_before.push(msg));
                assert(Seq::<char>::empty() + msg =~= msg);
                assert(err_lines(errs_after, Seq::empty()) =~= err_lines(errs_before, Seq::empty()).push(err_line(msg)));
                assert(es == es_before);
            } else {
                assert(listed_after == listed_before);
                assert(errs_after == errs_before);
                assert(es == es_before);
            }
            assert(rev@ =~= sorted0.subrange(k + 1, sorted0.len() as int).reverse());
        }
        k = k + 1;
    }
    proof {
        assert(sorted0.subrange(0, sorted0.len() as int) =~= sorted0);
    }
}

fn render_all(
    names: &Vec<String>,
    infos_v: &Vec<EntryInfo>,
    options: LsOptions,
    w: MaxWidths,
    out: &mut Vec<Emit>,
    Ghost(es): Ghost<Seq<(Seq<char>, EntryInfo)>>,
) -> (res: String)
    requires
        holds_entries(names@, infos_v@, es),
        options.long_format ==> forall|x: int| 0 <= x < es.len() ==> #[trigger] es[x].1.mode >= 64,
    ensures
        res@ == render_entries(es, options, w).0,
        emits_view(final(out)@) == emits_view(old(out)@) + err_lines(render_entries(es, options, w).1, "ls: "@),
{
    let ghost out0 = emits_view(out@);
    let mut res = String::new();
    let mut j: usize = 0;
    proof {
        assert(es.subrange(0, 0) =~= Seq::<(Seq<char>, EntryInfo)>::empty());
        assert(out0 + err_lines(Seq::empty(), "ls: "@) =~= out0);
    }
    while j < names.len()
        invariant
            holds_entries(names@, infos_v@, es),
            options.long_format ==> forall|x: int| 0 <= x < es.len() ==> #[trigger] es[x].1.mode >= 64,
            j <= names.len(),
            res@ == render_entries(es.subrange(0, j as int), options, w).0,
            emits_view(out@) == out0 + err_lines(render_entries(es.subrange(0, j as int), options, w).1, "ls: "@),
        decreases names.len() - j,
    {
        proof {
            assert(es.subrange(0, j + 1).drop_last() =~= es.subrange(0, j as int));
            assert(es.subrange(0, j + 1).last() == es[j as int]);
        }
        let ghost errs_before = render_entries(es.subrange(0, j as int), options, w).1;
        let f = format_entry(names[j].as_str(), &infos_v[j], options, w);
        match f {
            Ok(text) => {
                res.append(text.as_str());
            },
            Err(m) => {
                let mut line = "ls: ".to_owned();
                line.append(m.as_str());
                emit(out, stderr_line(line));
                proof {
                    let errs_after = render_entries(es.subrange(0, j + 1), options, w).1;
                    assert(err_lines(errs_after, "ls: "@) =~= err_lines(errs_before, "ls: "@).push(err_line("ls: "@ + m@)));
                }
            },
        }
        j = j + 1;
    }
    proof {
        assert(es.subrange(0, es.len() as int) =~= es);
    }
    res
}

fn listed_total(items: &Vec<DirItem>, sh: bool, start: u64) -> (total: u64)
    requires
        start + item_blocks(items@, sh) <= u64::MAX,
    ensures
        total == start + item_blocks(items@, sh),
{
    let mut total = start;
    let mut i: usize = 0;
    proof {
        assert(items@.subrange(0, 0) =~= Seq::<DirItem>::empty());
    }
    while i < items.len()
        invariant
            i <= items.len(),
            total == start + item_blocks(items@.subrange(0, i as int), sh),
            start + item_blocks(items@, sh) <= u64::MAX,
        decreases items.len() - i,
    {
        proof {
            assert(items@.subrange(0, i + 1).drop_last() =~= items@.subrange(0, i as int));
            lemma_item_blocks_prefix(items@, i + 1, sh);
        }
        let it = &items[i];
        if sh || !starts_with_dot(it.name.as_str()) {
            match &it.metadata {
                Ok(e) => {
                    total = total + e.blocks;
                },
                Err(_) => {},
            }
        }
        i = i + 1;
    }
    proof {
        assert(items@.subrange(0, items@.len() as int) =~= items@);
    }
    total
}

fn start_specials(dot: Option<EntryInfo>, dotdot: Option<EntryInfo>, sh: bool, names: &mut Vec<String>, infos_v: &mut Vec<EntryInfo>) -> (total: u64)
    requires
        old(names)@.len() == 0,
        old(infos_v)@.len() == 0,
        entries_blocks(special_entries(dot, dotdot, sh)) <= u64::MAX,
    ensures
        total == entries_blocks(special_entries(dot, dotdot, sh)),
        holds_entries(final(names)@, final(infos_v)@, special_entries(dot, dotdot, sh)),
{
    let ghost specials = special_entries(dot, dotdot, sh);
    proof {
        reveal_with_fuel(entries_blocks, 3);
    }
    let mut total: u64 = 0;
    if sh {
        match dot {
            Some(e) => {
                total = e.blocks;
                names.push(".".to_owned());
                infos_v.push(e);
            },
            None => {},
        }
        match dotdot {
            Some(e) => {
                total = total + e.blocks;
                names.push("..".to_owned());
                infos_v.push(e);
            },
            None => {},
        }
    }
    total
}

/// Lists the directory operand `path` (see `directory_output`).
pub fn list_directory(path: &str, facts: DirFacts, options: LsOptions, more_paths: bool) -> (r: Vec<Emit>)
    requires
        listing_allowed(facts, options),
    ensures
        directory_output(path@, facts, options, more_paths, emits_view(r@)),
{
    let DirFacts { listing, dot, dotdot } = facts;
    let mut out: Vec<Emit> = Vec::new();
    let items = match listing {
        DirListing::ReadFailed(t) => {
            emit(&mut out, stderr_line(concat4("ls: cannot access '", path, "': ", t.as_str())));
            proof {
                assert(emits_view(out@) =~= seq![err_line("ls: cannot access '"@ + path@ + "': "@ + t@)]);
            }
            return out;
        },
        DirListing::CollectFailed(t) => {
            emit(&mut out, stderr_line(concat4("ls: error reading directory '", path, "': ", t.as_str())));
            proof {
                assert(emits_view(out@) =~= seq![err_line("ls: error reading directory '"@ + path@ + "': "@ + t@)]);
            }
            return out;
        },
        DirListing::Items(items) => items,
    };
    let ghost items0 = items@;
    let sh = options.show_hidden;
    let ghost specials = special_entries(dot, dotdot, sh);
    let mut names: Vec<String> = Vec::new();
    let mut infos_v: Vec<EntryInfo> = Vec::new();
    let first = start_specials(dot, dotdot, sh, &mut names, &mut infos_v);
    let total = listed_total(&items, sh, first);

    if more_paths {
        let mut h = path.to_owned();
        h.append(":");
        emit(&mut out, stdout_line(h));
    }
    let ghost header = emits_view(out@);

    let sorted = sort_items(items);
    let ghost sorted0 = sorted@;
    proof {
        if options.long_format {
            let perm = choose|perm: Seq<int>| {
                &&& crate::sorting::is_permutation(perm, items0.len())
                &&& crate::sorting::sorts_stably(crate::sorting::item_keys(items0), perm)
                &&& sorted0.len() == items0.len()
                &&& forall|k: int| 0 <= k < sorted0.len() ==> #[trigger] sorted0[k] == items0[perm[k]]
            };
            assert forall|k: int| 0 <= k < sorted0.len() && visible(#[trigger] sorted0[k].name@, sh) && sorted0[k].metadata is Ok
                implies sorted0[k].metadata->Ok_0.mode >= 64 by {
                assert(sorted0[k] == items0[perm[k]]);
            }
            lemma_collect_modes(sorted0, sh);
        }
    }
    collect_listed(sorted, sh, &mut names, &mut infos_v, &mut out, Ghost(specials));
    let ghost (listed, meta_errs) = collect_items(sorted0, sh);
    let ghost es = specials + listed;

    if options.long_format {
        let mut line = "total ".to_owned();
        let half = decimal(total / 2);
        line.append(half.as_str());
        emit(&mut out, stdout_line(line));
    }

    let w = calculate_max_widths(&infos_v);
    proof {
        assert forall|j: int| 0 <= j < es.len() implies infos_v@[j] == #[trigger] infos(es)[j] by {
            assert(names@[j]@ == es[j].0);
        }
        assert(infos_v@ =~= infos(es));
        assert(w == widths_for(es));
        if options.long_format {
            assert forall|x: int| 0 <= x < es.len() implies #[trigger] es[x].1.mode >= 64 by {
                if x >= specials.len() {
                    assert(es[x] == listed[x - specials.len()]);
                }
            }
        }
    }
    let res = render_all(&names, &infos_v, options, w, &mut out, Ghost(es));
    if res.as_str().unicode_len() > 0 {
        let trimmed = trim_end(res.as_str());
        emit(&mut out, stdout_line(trimmed));
    }
    proof {
        assert(emits_view(out@) =~= items_output(path@, items0, sorted0, dot, dotdot, options, more_paths));
        assert(sorted_listing(items0, sorted0));
    }
    out
}

/// Whether `s` starts with a dot.
pub fn starts_with_dot(s: &str) -> (r: bool)
    ensures
        r == (s@.len() > 0 && s@[0] == '.'),
{
    s.unicode_len() > 0 && s.get_char(0) == '.'
}

/// What `ls` learned about a file operand (read without following a
/// final symbolic link).
pub enum FileFacts {
    /// Reading its metadata failed with this error text.
    Unreadable(String),
    Entry(EntryInfo),
}

/// The name a file operand is shown under: its last component, or the
/// operand itself when it has none.
pub open spec fn shown_name(path: Seq<char>) -> Seq<char> {
    match crate::paths::file_name_of(path) {
        Some(n) => n,
        None => path,
    }
}

pub open spec fn zero_widths() -> MaxWidths {
    MaxWidths { max_links: 0, max_user: 0, max_group: 0, max_size: 0 }
}

/// What `ls` prints for the file operand `path`.
pub open spec fn file_output(path: Seq<char>, facts: FileFacts, options: LsOptions) -> Seq<(bool, Seq<char>)> {
    match facts {
        FileFacts::Unreadable(t) => seq![err_line("ls: cannot access '"@ + path + "': "@ + t@)],
        FileFacts::Entry(e) => match entry_spec(shown_name(path), e, options, zero_widths()) {
            Ok(r) => seq![out_text(r)],
            Err(m) => seq![err_line("ls: "@ + m)],
        },
    }
}

/// Listing a file operand cannot panic.
pub open spec fn file_allowed(facts: FileFacts, options: LsOptions) -> bool {
    options.long_format && facts is Entry ==> facts->Entry_0.mode >= 64
}

/// Lists the file operand `path` (see `file_output`).
pub fn list_file(path: &str, facts: FileFacts, options: LsOptions) -> (r: Vec<Emit>)
    requires
        file_allowed(facts, options),
    ensures
        emits_view(r@) == file_output(path@, facts, options),
{
    let mut out: Vec<Emit> = Vec::new();
    match facts {
        FileFacts::Unreadable(t) => {
            emit(&mut out, stderr_line(concat4("ls: cannot access '", path, "': ", t.as_str())));
        },
        FileFacts::Entry(e) => {
            let name = match crate::paths::path_file_name(path) {
                Some(n) => n,
                None => path.to_owned(),
            };
            let w = MaxWidths { max_links: 0, max_user: 0, max_group: 0, max_size: 0 };
            match format_entry(name.as_str(), &e, options, w) {
                Ok(text) => {
                    emit(&mut out, Emit { to_stderr: false, text });
                },
                Err(m) => {
                    let mut line = "ls: ".to_owned();
                    line.append(m.as_str());
                    emit(&mut out, stderr_line(line));
                },
            }
        },
    }
    proof {
        assert(emits_view(out@) =~= file_output(path@, facts, options));
    }
    out
}

/// Decides `file_allowed`.
pub fn file_allowed_check(facts: &FileFacts, options: LsOptions) -> (r: bool)
    ensures
        r == file_allowed(*facts, options),
{
    match facts {
        FileFacts::Entry(e) => !options.long_format || e.mode >= 64,
        FileFacts::Unreadable(_) => true,
    }
}

/// Decides `listing_allowed`.
pub fn listing_allowed_check(facts: &DirFacts, options: LsOptions) -> (r: bool)
    ensures
        r == listing_allowed(*facts, options),
{
    match &facts.listing {
        DirListing::Items(items) => {
            let sh = options.show_hidden;
            let ghost specials = special_entries(facts.dot, facts.dotdot, sh);
            let mut total: u64 = 0;
            let mut modes_ok = true;
            proof {
                reveal_with_fuel(entries_blocks, 3);
            }
            if sh {
                match &facts.dot {
                    Some(e) => {
                        total = e.blocks;
                        if e.mode < 64 {
                            modes_ok = false;
                        }
                    },
                    None => {},
                }
                match &facts.dotdot {
                    Some(e) => {
                        if total > u64::MAX - e.blocks {
                            return false;
                        }
                        total = total + e.blocks;
                        if e.mode < 64 {
                            modes_ok = false;
                        }
                    },
                    None => {},
                }
            }
            proof {
                let gd = facts.dot;
                let gdd = facts.dotdot;
                if sh {
                    match gd {
                        Some(e1) => match gdd {
                            Some(e2) => {
                                assert(specials =~= seq![("."@, e1), (".."@, e2)]);
                                assert(specials[0].1 == e1 && specials[1].1 == e2);
                            },
                            None => {
                                assert(specials =~= seq![("."@, e1)]);
                                assert(specials[0].1 == e1);
                            },
                        },
                        None => match gdd {
                            Some(e2) => {
                                assert(specials =~= seq![(".."@, e2)]);
                                assert(specials[0].1 == e2);
                            },
                            None => assert(specials =~= Seq::<(Seq<char>, EntryInfo)>::empty()),
                        },
                    }
                }
                assert(modes_ok == forall|k: int| 0 <= k < specials.len() ==> #[trigger] specials[k].1.mode >= 64);
            }
            let mut i: usize = 0;
            proof {
                assert(items@.subrange(0, 0) =~= Seq::<DirItem>::empty());
            }
            while i < items.len()
                invariant
                    facts.listing is Items,
                    facts.listing->Items_0@ == items@,
                    specials == special_entries(facts.dot, facts.dotdot, sh),
                    sh == options.show_hidden,
                    i <= items.len(),
                    total == entries_blocks(specials) + item_blocks(items@.subrange(0, i as int), sh),
                    modes_ok == ((forall|k: int| 0 <= k < specials.len() ==> #[trigger] specials[k].1.mode >= 64)
                        && (forall|k: int| 0 <= k < i && visible(#[trigger] items@[k].name@, sh) && items@[k].metadata is Ok
                            ==> items@[k].metadata->Ok_0.mode >= 64)),
                decreases items.len() - i,
            {
                proof {
                    assert(items@.subrange(0, i + 1).drop_last() =~= items@.subrange(0, i as int));
                    assert(items@.subrange(0, i + 1).last() == items@[i as int]);
                }
                let it = &items[i];
                if sh || !starts_with_dot(it.name.as_str()) {
                    match &it.metadata {
                        Ok(e) => {
                            if total > u64::MAX - e.blocks {
                                proof {
                                    assert(*it == items@[i as int]);
                                    assert(item_blocks(items@.subrange(0, i + 1), sh)
                                        == item_blocks(items@.subrange(0, i as int), sh) + e.blocks);
                                    lemma_item_blocks_prefix(items@, i + 1, sh);
                                    assert(entries_blocks(specials) + item_blocks(items@, sh) > u64::MAX);
                                    assert(facts.listing->Items_0@ == items@);
                                }
                                return false;
                            }
                            total = total + e.blocks;
                            if e.mode < 64 {
                                modes_ok = false;
                            }
                        },
                        Err(_) => {},
                    }
                }
                i = i + 1;
            }
            proof {
                assert(items@.subrange(0, items@.len() as int) =~= items@);
            }
            !options.long_format || modes_ok
        },
        _ => true,
    }
}

/// Without `-a` no listed name starts with a dot; with `-a` every name is
/// either listed or reported, none is skipped.
pub proof fn law_hidden_names(items: Seq<DirItem>)
    ensures
        forall|j: int| 0 <= j < collect_items(items, false).0.len() ==> {
            let n = #[trigger] collect_items(items, false).0[j].0;
            !(n.len() > 0 && n[0] == '.')
        },
        collect_items(items, true).0.len() + collect_items(items, true).1.len() == items.len(),
    decreases items.len(),
{
    if items.len() > 0 {
        law_hidden_names(items.drop_last());
        let (es0, _) = collect_items(items.drop_last(), false);
        let (es1, _) = collect_items(items, false);
        assert forall|j: int| 0 <= j < es1.len() implies {
            let n = #[trigger] es1[j].0;
            !(n.len() > 0 && n[0] == '.')
        } by {
            if j < es0.len() {
                assert(es1[j] == es0[j]);
            }
        }
    }
}

/// What `ls` prints for a directory is determined by what it learned
/// about it: `directory_output` accepts exactly one output.
pub proof fn law_directory_output_is_unique(
    path: Seq<char>,
    facts: DirFacts,
    options: LsOptions,
    more_paths: bool,
    o1: Seq<(bool, Seq<char>)>,
    o2: Seq<(bool, Seq<char>)>,
)
    requires
        directory_output(path, facts, options, more_paths, o1),
        directory_output(path, facts, options, more_paths, o2),
    ensures
        o1 == o2,
{
    match facts.listing {
        DirListing::Items(items) => {
            let s1 = choose|sorted: Seq<DirItem>|
                sorted_listing(items@, sorted) && o1 == items_output(path, items@, sorted, facts.dot, facts.dotdot, options, more_paths);
            let s2 = choose|sorted: Seq<DirItem>|
                sorted_listing(items@, sorted) && o2 == items_output(path, items@, sorted, facts.dot, facts.dotdot, options, more_paths);
            crate::sorting::law_listing_order_is_unique(items@, s1, s2);
        },
        _ => {},
    }
}

/// Nothing that should be listed is dropped: an item whose metadata was
/// read is among the listed entries under `-a`, and without `-a` whenever
/// its name does not start with a dot; an item whose metadata could not be
/// read is reported under the same condition.
pub proof fn law_shown_names_are_listed(items: Seq<DirItem>, show_hidden: bool, k: int)
    requires
        0 <= k < items.len(),
        show_hidden || !(items[k].name@.len() > 0 && items[k].name@[0] == '.'),
    ensures
        items[k].metadata is Ok ==> exists|j: int| 0 <= j < collect_items(items, show_hidden).0.len()
            && #[trigger] collect_items(items, show_hidden).0[j] == (items[k].name@, items[k].metadata->Ok_0),
        items[k].metadata is Err ==> exists|j: int| 0 <= j < collect_items(items, show_hidden).1.len()
            && #[trigger] collect_items(items, show_hidden).1[j]
                == "ls: error reading metadata for '"@ + items[k].name@ + "': "@ + items[k].metadata->Err_0@,
    decreases items.len(),
{
    let (es1, errs1) = collect_items(items, show_hidden);
    if k == items.len() - 1 {
        assert(items.last() == items[k]);
        if items[k].metadata is Ok {
            assert(es1[es1.len() - 1] == (items[k].name@, items[k].metadata->Ok_0));
        } else {
            assert(errs1[errs1.len() - 1]
                == "ls: error reading metadata for '"@ + items[k].name@ + "': "@ + items[k].metadata->Err_0@);
        }
    } else {
        let init = items.drop_last();
        assert(init[k] == items[k]);
        law_shown_names_are_listed(init, show_hidden, k);
        let (es0, errs0) = collect_items(init, show_hidden);
        assert(es1.len() >= es0.len() && forall|j: int| 0 <= j < es0.len() ==> es1[j] == es0[j]);
        assert(errs1.len() >= errs0.len() && forall|j: int| 0 <= j < errs0.len() ==> errs1[j] == errs0[j]);
        if items[k].metadata is Ok {
            let j = choose|j: int| 0 <= j < es0.len() && #[trigger] es0[j] == (items[k].name@, items[k].metadata->Ok_0);
            assert(es1[j] == es0[j]);
        } else {
            let j = choose|j: int| 0 <= j < errs0.len() && #[trigger] errs0[j]
                == "ls: error reading metadata for '"@ + items[k].name@ + "': "@ + items[k].metadata->Err_0@;
            assert(errs1[j] == errs0[j]);
        }
    }
}

} // verus!
