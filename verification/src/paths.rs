//! Unix paths as text: their components, their order, and joining them.
//!
//! Two paths are the same when their components are: repeated and trailing slashes and inner dots
//! do not count.

use vstd::prelude::*;
use vstd::string::*;

use crate::text::{chars_of, same, split, pieces};

verus! {

broadcast use vstd::string::group_string_axioms;

/// A component of a path.
#[derive(Debug)]
pub enum Component {
    /// The leading slash of an absolute path.
    Root,
    /// A leading dot.
    Here,
    /// Two dots.
    Up,
    /// Any other name.
    Name(String),
}

#[verifier::ext_equal]
pub enum ComponentView {
    Root,
    Here,
    Up,
    Name(Seq<char>),
}

impl View for Component {
    type V = ComponentView;

    open spec fn view(&self) -> ComponentView {
        match self {
            Component::Root => ComponentView::Root,
            Component::Here => ComponentView::Here,
            Component::Up => ComponentView::Up,
            Component::Name(name) => ComponentView::Name(name@),
        }
    }
}

impl DeepView for Component {
    type V = ComponentView;

    open spec fn deep_view(&self) -> ComponentView {
        self@
    }
}

/// Whether a path is absolute.
pub open spec fn is_absolute_path(path: Seq<char>) -> bool {
    path.len() > 0 && path[0] == '/'
}

/// The components of the pieces between the slashes of a path: empty pieces and dots do not count.
pub open spec fn named_components(parts: Seq<Seq<char>>) -> Seq<ComponentView>
    decreases parts.len(),
{
    if parts.len() == 0 {
        Seq::empty()
    } else {
        let before = named_components(parts.drop_last());
        let part = parts.last();
        if part.len() == 0 || part == "."@ {
            before
        } else if part == ".."@ {
            before.push(ComponentView::Up)
        } else {
            before.push(ComponentView::Name(part))
        }
    }
}

/// The components of a path.
pub open spec fn components_of(path: Seq<char>) -> Seq<ComponentView> {
    let parts = pieces(path, '/');
    let lead = if is_absolute_path(path) {
        seq![ComponentView::Root]
    } else if parts[0] == "."@ {
        seq![ComponentView::Here]
    } else {
        Seq::empty()
    };
    lead + named_components(parts)
}

/// Whether a sequence comes before another, going by the first place where they differ.
pub open spec fn comes_before<T>(
    a: Seq<T>,
    b: Seq<T>,
    less: spec_fn(T, T) -> bool,
) -> bool
    decreases a.len(),
{
    if b.len() == 0 {
        false
    } else if a.len() == 0 {
        true
    } else if a[0] == b[0] {
        comes_before(a.skip(1), b.skip(1), less)
    } else {
        less(a[0], b[0])
    }
}

/// Whether a character comes before another.
pub open spec fn char_less() -> spec_fn(char, char) -> bool {
    |a: char, b: char| a < b
}

/// Where a component stands among the others.
pub open spec fn rank(component: ComponentView) -> int {
    match component {
        ComponentView::Root => 0,
        ComponentView::Here => 1,
        ComponentView::Up => 2,
        ComponentView::Name(_) => 3,
    }
}

/// Whether a component comes before another: names come last, in the order of their characters.
pub open spec fn component_less() -> spec_fn(ComponentView, ComponentView) -> bool {
    |a: ComponentView, b: ComponentView|
        match (a, b) {
            (ComponentView::Name(x), ComponentView::Name(y)) => comes_before(x, y, char_less()),
            _ => rank(a) < rank(b),
        }
}

/// Whether a path comes before another.
pub open spec fn path_less(a: Seq<char>, b: Seq<char>) -> bool {
    comes_before(components_of(a), components_of(b), component_less())
}

/// Whether `less` orders all values one after another.
pub open spec fn orders<T>(less: spec_fn(T, T) -> bool) -> bool {
    &&& forall|a: T, b: T| #[trigger] less(a, b) ==> !less(b, a)
    &&& forall|a: T, b: T| a != b ==> #[trigger] less(a, b) || less(b, a)
    &&& forall|a: T, b: T, c: T| #[trigger] less(a, b) && #[trigger] less(b, c) ==> less(a, c)
}

proof fn lemma_before_asymmetric<T>(a: Seq<T>, b: Seq<T>, less: spec_fn(T, T) -> bool)
    requires
        orders(less),
        comes_before(a, b, less),
    ensures
        !comes_before(b, a, less),
    decreases a.len(),
{
    if a.len() > 0 {
        if a[0] == b[0] {
            lemma_before_asymmetric(a.skip(1), b.skip(1), less);
        } else {
            assert(less(a[0], b[0]));
        }
    }
}

proof fn lemma_before_total<T>(a: Seq<T>, b: Seq<T>, less: spec_fn(T, T) -> bool)
    requires
        orders(less),
        a != b,
    ensures
        comes_before(a, b, less) || comes_before(b, a, less),
    decreases a.len(),
{
    if a.len() == 0 {
        assert(b.len() == 0 ==> a =~= b);
    } else if b.len() > 0 {
        if a[0] == b[0] {
            if a.skip(1) == b.skip(1) {
                assert(a =~= seq![a[0]] + a.skip(1));
                assert(b =~= seq![b[0]] + b.skip(1));
            }
            lemma_before_total(a.skip(1), b.skip(1), less);
        } else {
            assert(less(a[0], b[0]) || less(b[0], a[0]));
        }
    }
}

proof fn lemma_before_transitive<T>(
    a: Seq<T>,
    b: Seq<T>,
    c: Seq<T>,
    less: spec_fn(T, T) -> bool,
)
    requires
        orders(less),
        comes_before(a, b, less),
        comes_before(b, c, less),
    ensures
        comes_before(a, c, less),
    decreases a.len(),
{
    if a.len() > 0 {
        if a[0] == b[0] && b[0] == c[0] {
            lemma_before_transitive(a.skip(1), b.skip(1), c.skip(1), less);
        } else if a[0] == b[0] {
            assert(less(b[0], c[0]));
        } else if b[0] == c[0] {
            assert(less(a[0], b[0]));
        } else {
            assert(less(a[0], b[0]) && less(b[0], c[0]));
            assert(less(a[0], c[0]));
            assert(!less(c[0], a[0]));
        }
    }
}

/// Ordering by the first difference orders sequences where their items are ordered.
pub proof fn lemma_orders_sequences<T>(less: spec_fn(T, T) -> bool)
    requires
        orders(less),
    ensures
        orders(|a: Seq<T>, b: Seq<T>| comes_before(a, b, less)),
{
    let whole = |a: Seq<T>, b: Seq<T>| comes_before(a, b, less);
    assert forall|a: Seq<T>, b: Seq<T>| #[trigger] whole(a, b) implies !whole(b, a) by {
        lemma_before_asymmetric(a, b, less);
    }
    assert forall|a: Seq<T>, b: Seq<T>| a != b implies #[trigger] whole(a, b) || whole(b, a) by {
        lemma_before_total(a, b, less);
    }
    assert forall|a: Seq<T>, b: Seq<T>, c: Seq<T>| #[trigger]
        whole(a, b) && #[trigger] whole(b, c) implies whole(a, c) by {
        lemma_before_transitive(a, b, c, less);
    }
}

/// Paths are ordered by their components.
pub proof fn law_paths_are_ordered()
    ensures
        orders(component_less()),
        orders(
            |a: Seq<ComponentView>, b: Seq<ComponentView>| comes_before(a, b, component_less()),
        ),
{
    let less = component_less();
    assert(orders(char_less()));
    lemma_orders_sequences(char_less());
    let texts = |a: Seq<char>, b: Seq<char>| comes_before(a, b, char_less());
    assert forall|a: ComponentView, b: ComponentView| #[trigger] less(a, b) implies !less(
        b,
        a,
    ) by {
        if let (ComponentView::Name(x), ComponentView::Name(y)) = (a, b) {
            assert(texts(x, y));
        }
    }
    assert forall|a: ComponentView, b: ComponentView| a != b implies #[trigger] less(a, b) || less(
        b,
        a,
    ) by {
        if let (ComponentView::Name(x), ComponentView::Name(y)) = (a, b) {
            assert(texts(x, y) || texts(y, x));
        }
    }
    assert forall|a: ComponentView, b: ComponentView, c: ComponentView| #[trigger]
        less(a, b) && #[trigger] less(b, c) implies less(a, c) by {
        if let (ComponentView::Name(x), ComponentView::Name(y)) = (a, b) {
            if let ComponentView::Name(z) = c {
                assert(texts(x, y) && texts(y, z));
                assert(texts(x, z));
            }
        }
    }
    lemma_orders_sequences(less);
}

/// The components of a path.
pub fn components(path: &str) -> (found: Vec<Component>)
    ensures
        found.deep_view() == components_of(path@),
{
    let parts = split(path, '/');
    let chars = chars_of(path);
    let ghost all = parts.deep_view();
    proof {
        lemma_some_piece(path@, '/');
        reveal_strlit("");
    }
    let mut found: Vec<Component> = Vec::new();
    if chars.len() > 0 && chars[0] == '/' {
        found.push(Component::Root);
        assert(found.deep_view() =~= seq![ComponentView::Root]);
    } else if same(parts[0].as_str(), ".") {
        found.push(Component::Here);
        assert(found.deep_view() =~= seq![ComponentView::Here]);
    }
    let ghost lead = found.deep_view();
    assert(lead + named_components(all.take(0)) =~= lead);
    let mut i: usize = 0;
    while i < parts.len()
        invariant
            all == parts.deep_view(),
            i <= parts@.len(),
            ""@.len() == 0,
            found.deep_view() == lead + named_components(all.take(i as int)),
        decreases parts@.len() - i,
    {
        let ghost before = found.deep_view();
        let part = &parts[i];
        proof {
            assert(all.take(i + 1).drop_last() =~= all.take(i as int));
            assert(all[i as int] == part@);
            assert(part@.len() == 0 ==> part@ =~= ""@);
        }
        if same(part.as_str(), "") || same(part.as_str(), ".") {
        } else if same(part.as_str(), "..") {
            found.push(Component::Up);
            assert(found.deep_view() =~= before.push(ComponentView::Up));
        } else {
            found.push(Component::Name(part.clone()));
            assert(found.deep_view() =~= before.push(ComponentView::Name(part@)));
        }
        assert(found.deep_view() =~= lead + named_components(all.take(i + 1)));
        i += 1;
    }
    assert(all.take(all.len() as int) =~= all);
    assert(found.deep_view() =~= components_of(path@));
    found
}

proof fn lemma_some_piece(s: Seq<char>, c: char)
    ensures
        pieces(s, c).len() > 0,
    decreases s.len(),
{
    if s.len() > 0 {
        lemma_some_piece(s.drop_last(), c);
    }
}

/// Whether a text comes before another.
pub fn text_before(a: &str, b: &str) -> (yes: bool)
    ensures
        yes == comes_before(a@, b@, char_less()),
{
    let x = chars_of(a);
    let y = chars_of(b);
    let mut i: usize = 0;
    assert(x@.skip(0) =~= x@ && y@.skip(0) =~= y@);
    while i < x.len() && i < y.len()
        invariant
            x@ == a@,
            y@ == b@,
            i <= x@.len(),
            i <= y@.len(),
            comes_before(a@, b@, char_less()) == comes_before(
                x@.skip(i as int),
                y@.skip(i as int),
                char_less(),
            ),
        decreases x@.len() - i,
    {
        let ghost xs = x@.skip(i as int);
        let ghost ys = y@.skip(i as int);
        assert(xs[0] == x@[i as int] && ys[0] == y@[i as int]);
        if x[i] != y[i] {
            return x[i] < y[i];
        }
        assert(xs.skip(1) =~= x@.skip(i + 1) && ys.skip(1) =~= y@.skip(i + 1));
        i += 1;
    }
    i < y.len()
}

fn rank_of(component: &Component) -> (place: u8)
    ensures
        place == rank(component@),
{
    match component {
        Component::Root => 0,
        Component::Here => 1,
        Component::Up => 2,
        Component::Name(_) => 3,
    }
}

fn component_before(a: &Component, b: &Component) -> (yes: bool)
    ensures
        yes == component_less()(a@, b@),
{
    match (a, b) {
        (Component::Name(x), Component::Name(y)) => text_before(x.as_str(), y.as_str()),
        _ => rank_of(a) < rank_of(b),
    }
}

/// How two paths compare.
#[derive(Clone, Copy, PartialEq, Eq, Structural, Debug)]
pub enum Order {
    Before,
    Same,
    After,
}

/// Compares two paths by their components.
pub fn order(a: &str, b: &str) -> (order: Order)
    ensures
        match order {
            Order::Before => path_less(a@, b@),
            Order::Same => components_of(a@) == components_of(b@),
            Order::After => path_less(b@, a@),
        },
{
    let x = components(a);
    let y = components(b);
    let ghost xs = x.deep_view();
    let ghost ys = y.deep_view();
    let ghost less = component_less();
    let mut i: usize = 0;
    assert(xs.skip(0) =~= xs && ys.skip(0) =~= ys);
    proof {
        law_paths_are_ordered();
    }
    while i < x.len() && i < y.len()
        invariant
            orders(less),
            less == component_less(),
            xs == x.deep_view(),
            ys == y.deep_view(),
            xs == components_of(a@),
            ys == components_of(b@),
            i <= xs.len(),
            i <= ys.len(),
            xs.take(i as int) == ys.take(i as int),
            comes_before(xs, ys, less) == comes_before(
                xs.skip(i as int),
                ys.skip(i as int),
                less,
            ),
            comes_before(ys, xs, less) == comes_before(
                ys.skip(i as int),
                xs.skip(i as int),
                less,
            ),
        decreases xs.len() - i,
    {
        let ghost xl = xs.skip(i as int);
        let ghost yl = ys.skip(i as int);
        proof {
            assert(xl[0] == x@[i as int]@ && yl[0] == y@[i as int]@);
            assert(xl.skip(1) =~= xs.skip(i + 1) && yl.skip(1) =~= ys.skip(i + 1));
        }
        if component_before(&x[i], &y[i]) {
            proof {
                assert(less(xl[0], yl[0]));
                assert(!less(yl[0], xl[0]));
            }
            return Order::Before;
        }
        if component_before(&y[i], &x[i]) {
            proof {
                assert(less(yl[0], xl[0]));
                assert(!less(xl[0], yl[0]));
            }
            return Order::After;
        }
        proof {
            assert(xl[0] == yl[0]) by {
                if xl[0] != yl[0] {
                    assert(less(xl[0], yl[0]) || less(yl[0], xl[0]));
                }
            }
            assert(xs.take(i + 1) =~= xs.take(i as int).push(xl[0]));
            assert(ys.take(i + 1) =~= ys.take(i as int).push(yl[0]));
        }
        i += 1;
    }
    if i < y.len() {
        return Order::Before;
    }
    if i < x.len() {
        return Order::After;
    }
    proof {
        assert(xs.take(i as int) =~= xs && ys.take(i as int) =~= ys);
    }
    Order::Same
}

/// A path below another: an absolute one stands for itself.
pub open spec fn joined_path(root: Seq<char>, path: Seq<char>) -> Seq<char> {
    if is_absolute_path(path) {
        path
    } else if root.len() == 0 || root.last() == '/' {
        root + path
    } else {
        root.push('/') + path
    }
}

/// The path below another.
pub fn join_path(root: &str, path: &str) -> (joined: String)
    ensures
        joined@ == joined_path(root@, path@),
{
    let chars = chars_of(path);
    if chars.len() > 0 && chars[0] == '/' {
        return path.to_owned();
    }
    let base = chars_of(root);
    let mut joined = root.to_owned();
    if base.len() > 0 && base[base.len() - 1] != '/' {
        joined.push('/');
    }
    joined.append(path);
    joined
}

/// Whether paths are in order and no two of them are the same.
pub open spec fn in_order(paths: Seq<Seq<char>>) -> bool {
    forall|i: int, j: int|
        0 <= i < j < paths.len() ==> path_less(#[trigger] paths[i], #[trigger] paths[j])
}

/// Whether one of some paths is the same as a given one.
pub open spec fn has_path(paths: Seq<Seq<char>>, path: Seq<char>) -> bool {
    exists|i: int|
        0 <= i < paths.len() && components_of(#[trigger] paths[i]) == components_of(path)
}

/// Whether a text is the first spelling of its path among paths: no path before it is the same.
pub open spec fn is_first_spelling(paths: Seq<Seq<char>>, text: Seq<char>) -> bool {
    exists|k: int|
        0 <= k < paths.len() && #[trigger] paths[k] == text && !has_path(paths.take(k), text)
}

/// Whether a list holds the paths of another in order, none of them twice, and each as it was
/// spelled first.
pub open spec fn sorted_paths(sorted: Seq<Seq<char>>, paths: Seq<Seq<char>>) -> bool {
    &&& in_order(sorted)
    &&& forall|path: Seq<char>| #[trigger] has_path(sorted, path) <==> has_path(paths, path)
    &&& forall|i: int| 0 <= i < sorted.len() ==> is_first_spelling(paths, #[trigger] sorted[i])
}

/// Brings paths in order and keeps the first of those that are the same.
pub fn sort_and_dedup(paths: &Vec<String>) -> (sorted: Vec<String>)
    ensures
        sorted_paths(sorted.deep_view(), paths.deep_view()),
{
    let ghost all = paths.deep_view();
    let mut sorted: Vec<String> = Vec::new();
    let mut i: usize = 0;
    while i < paths.len()
        invariant
            all == paths.deep_view(),
            i <= paths@.len(),
            in_order(sorted.deep_view()),
            forall|path: Seq<char>| #[trigger]
                has_path(sorted.deep_view(), path) <==> has_path(all.take(i as int), path),
            forall|k: int|
                0 <= k < sorted@.len() ==> is_first_spelling(
                    all,
                    #[trigger] sorted.deep_view()[k],
                ),
        decreases paths@.len() - i,
    {
        let ghost before = sorted.deep_view();
        place(&mut sorted, &paths[i]);
        proof {
            let path = paths@[i as int]@;
            assert(all[i as int] == path);
            assert forall|other: Seq<char>| #[trigger]
                has_path(sorted.deep_view(), other) <==> has_path(all.take(i + 1), other) by {
                lemma_has_path_push(all.take(i as int), path, other);
                assert(all.take(i + 1) =~= all.take(i as int).push(path));
            }
            assert forall|k: int| 0 <= k < sorted@.len() implies is_first_spelling(
                all,
                #[trigger] sorted.deep_view()[k],
            ) by {
                let text = sorted.deep_view()[k];
                if before.contains(text) {
                    let m = choose|m: int| 0 <= m < before.len() && before[m] == text;
                    assert(is_first_spelling(all, before[m]));
                } else {
                    assert(text == path && !has_path(before, path));
                    assert(!has_path(all.take(i as int), path));
                    assert(all[i as int] == text);
                }
            }
        }
        i += 1;
    }
    assert(all.take(all.len() as int) =~= all);
    sorted
}

proof fn lemma_has_path_push(paths: Seq<Seq<char>>, path: Seq<char>, other: Seq<char>)
    ensures
        has_path(paths.push(path), other) <==> (has_path(paths, other) || components_of(path)
            == components_of(other)),
{
    let more = paths.push(path);
    if has_path(paths, other) {
        let i = choose|i: int|
            0 <= i < paths.len() && components_of(#[trigger] paths[i]) == components_of(other);
        assert(more[i] == paths[i]);
    }
    if components_of(path) == components_of(other) {
        assert(more[paths.len() as int] == path);
    }
    if has_path(more, other) {
        let i = choose|i: int|
            0 <= i < more.len() && components_of(#[trigger] more[i]) == components_of(other);
        if i < paths.len() {
            assert(paths[i] == more[i]);
        }
    }
}

/// Puts a path in its place among paths in order, unless it is there.
fn place(sorted: &mut Vec<String>, path: &String)
    requires
        in_order(old(sorted).deep_view()),
    ensures
        in_order(final(sorted).deep_view()),
        forall|other: Seq<char>| #[trigger]
            has_path(final(sorted).deep_view(), other) <==> (has_path(
                old(sorted).deep_view(),
                other,
            ) || components_of(path@) == components_of(other)),
        forall|i: int|
            0 <= i < final(sorted)@.len() ==> old(sorted).deep_view().contains(
                #[trigger] final(sorted).deep_view()[i],
            ) || (final(sorted).deep_view()[i] == path@ && !has_path(
                old(sorted).deep_view(),
                path@,
            )),
{
    let ghost before = sorted.deep_view();
    let mut at: usize = 0;
    proof {
        law_paths_are_ordered();
    }
    while at < sorted.len()
        invariant
            *sorted == *old(sorted),
            before == sorted.deep_view(),
            in_order(before),
            at <= sorted@.len(),
            forall|k: int| 0 <= k < at ==> path_less(#[trigger] before[k], path@),
        ensures
            at <= sorted@.len(),
            *sorted == *old(sorted),
            forall|k: int| 0 <= k < at ==> path_less(#[trigger] before[k], path@),
            at < sorted@.len() ==> path_less(path@, before[at as int]),
        decreases sorted@.len() - at,
    {
        assert(before[at as int] == sorted@[at as int]@);
        match order(sorted[at].as_str(), path.as_str()) {
            Order::Before => {},
            Order::Same => {
                proof {
                    assert forall|other: Seq<char>| components_of(path@) == components_of(
                        other,
                    ) implies has_path(before, other) by {
                        assert(components_of(before[at as int]) == components_of(other));
                    }
                    assert forall|i: int| 0 <= i < before.len() implies before.contains(
                        #[trigger] before[i],
                    ) by {}
                }
                return;
            },
            Order::After => {
                break;
            },
        }
        at += 1;
    }
    sorted.insert(at, path.clone());
    proof {
        let after = sorted.deep_view();
        assert(after =~= before.insert(at as int, path@));
        let whole = |a: Seq<ComponentView>, b: Seq<ComponentView>|
            comes_before(a, b, component_less());
        assert forall|i: int, j: int| 0 <= i < j < after.len() implies path_less(
            #[trigger] after[i],
            #[trigger] after[j],
        ) by {
            if j == at {
                assert(after[i] == before[i]);
            } else if i == at {
                assert(after[j] == before[j - 1]);
                if j - 1 > at {
                    assert(path_less(before[at as int], before[j - 1]));
                    let x = components_of(path@);
                    let y = components_of(before[at as int]);
                    let z = components_of(before[j - 1]);
                    assert(whole(x, y) && whole(y, z));
                    assert(whole(x, z));
                }
            } else {
                let k = if i < at { i } else { i - 1 };
                let l = if j < at { j } else { j - 1 };
                assert(after[i] == before[k] && after[j] == before[l]);
            }
        }
        assert forall|other: Seq<char>| #[trigger] has_path(after, other) <==> (has_path(
            before,
            other,
        ) || components_of(path@) == components_of(other)) by {
            if has_path(after, other) {
                let i = choose|i: int|
                    0 <= i < after.len() && components_of(#[trigger] after[i]) == components_of(
                        other,
                    );
                if i < at {
                    assert(before[i] == after[i]);
                } else if i > at {
                    assert(before[i - 1] == after[i]);
                }
            }
            if has_path(before, other) {
                let i = choose|i: int|
                    0 <= i < before.len() && components_of(#[trigger] before[i]) == components_of(
                        other,
                    );
                if i < at {
                    assert(after[i] == before[i]);
                } else {
                    assert(after[i + 1] == before[i]);
                }
            }
            assert(after[at as int] == path@);
        }
        assert(!has_path(before, path@)) by {
            if has_path(before, path@) {
                let i = choose|i: int|
                    0 <= i < before.len() && components_of(#[trigger] before[i])
                        == components_of(path@);
                let x = components_of(path@);
                if i > at {
                    assert(path_less(before[at as int], before[i]));
                    assert(whole(x, components_of(before[at as int])));
                }
                assert(whole(x, x));
            }
        }
        assert forall|i: int| 0 <= i < after.len() implies before.contains(#[trigger] after[i])
            || after[i] == path@ by {
            if i < at {
                assert(after[i] == before[i]);
            } else if i > at {
                assert(after[i] == before[i - 1]);
            }
        }
    }
}

/// A sequence comes before another where they agree up to some place and then the one has ended, or
/// has what comes first there.
pub proof fn law_first_difference_decides<T>(
    a: Seq<T>,
    b: Seq<T>,
    less: spec_fn(T, T) -> bool,
    k: int,
)
    requires
        0 <= k <= a.len(),
        k <= b.len(),
        forall|i: int| 0 <= i < k ==> #[trigger] a[i] == b[i],
    ensures
        k == a.len() && k < b.len() ==> comes_before(a, b, less),
        k == b.len() ==> !comes_before(a, b, less),
        k < a.len() && k < b.len() && a[k] != b[k] ==> comes_before(a, b, less) == less(a[k], b[k]),
    decreases k,
{
    if k > 0 {
        assert(a[0] == b[0]);
        let x = a.skip(1);
        let y = b.skip(1);
        assert forall|i: int| 0 <= i < k - 1 implies #[trigger] x[i] == y[i] by {
            assert(a[i + 1] == b[i + 1]);
        }
        law_first_difference_decides(x, y, less, k - 1);
    }
}

/// The pieces of a path name its components one after another: empty pieces and dots name nothing,
/// two dots go up, anything else is a name.
pub proof fn law_pieces_name_components(one: Seq<Seq<char>>, two: Seq<Seq<char>>, part: Seq<char>)
    ensures
        named_components(one + two) == named_components(one) + named_components(two),
        named_components(Seq::empty()).len() == 0,
        part.len() == 0 || part == "."@ ==> named_components(seq![part]).len() == 0,
        part == ".."@ ==> named_components(seq![part]) == seq![ComponentView::Up],
        part.len() > 0 && part != "."@ && part != ".."@ ==> named_components(seq![part]) == seq![
            ComponentView::Name(part),
        ],
    decreases two.len(),
{
    let single = seq![part];
    reveal_strlit(".");
    reveal_strlit("..");
    assert(single.drop_last() =~= Seq::empty());
    assert(named_components(single.drop_last()) =~= Seq::empty());
    assert(Seq::empty().push(ComponentView::Up) =~= seq![ComponentView::Up]);
    assert(Seq::empty().push(ComponentView::Name(part)) =~= seq![ComponentView::Name(part)]);
    if two.len() == 0 {
        assert(one + two =~= one);
        assert(named_components(one) + named_components(two) =~= named_components(one));
    } else {
        law_pieces_name_components(one, two.drop_last(), part);
        assert((one + two).drop_last() =~= one + two.drop_last());
        assert(named_components(one + two) =~= named_components(one) + named_components(two));
    }
}

/// A path begins at the root where its first character is a slash, and with a dot where its first
/// piece is one; after that come the components that its pieces name.
pub proof fn law_components(path: Seq<char>)
    ensures
        path.len() > 0 && path[0] == '/' ==> components_of(path) == seq![ComponentView::Root]
            + named_components(pieces(path, '/')),
        pieces(path, '/')[0] == "."@ ==> components_of(path) == seq![ComponentView::Here]
            + named_components(pieces(path, '/')),
        !(path.len() > 0 && path[0] == '/') && pieces(path, '/')[0] != "."@ ==> components_of(path)
            == named_components(pieces(path, '/')),
{
    if pieces(path, '/')[0] == "."@ && path.len() > 0 && path[0] == '/' {
        reveal_strlit(".");
        lemma_first_piece(path, '/');
    }
    assert(Seq::<ComponentView>::empty() + named_components(pieces(path, '/'))
        =~= named_components(pieces(path, '/')));
}

proof fn lemma_first_piece(s: Seq<char>, c: char)
    requires
        s.len() > 0,
        s[0] == c,
    ensures
        pieces(s, c).len() > 1,
        pieces(s, c)[0].len() == 0,
    decreases s.len(),
{
    if s.len() == 1 {
        assert(s.drop_last() =~= Seq::empty());
        assert(pieces(s.drop_last(), c) =~= seq![Seq::empty()]);
    } else {
        lemma_first_piece(s.drop_last(), c);
    }
}

/// Names come behind the root, dots and the way up, and among themselves in the order of their
/// characters.
pub proof fn law_component_order(x: Seq<char>, y: Seq<char>)
    ensures
        component_less()(ComponentView::Root, ComponentView::Here),
        component_less()(ComponentView::Here, ComponentView::Up),
        component_less()(ComponentView::Up, ComponentView::Name(x)),
        component_less()(ComponentView::Root, ComponentView::Name(x)),
        component_less()(ComponentView::Name(x), ComponentView::Name(y)) == comes_before(
            x,
            y,
            |a: char, b: char| a < b,
        ),
{
}

/// An absolute path stands for itself wherever it is joined; a relative one comes behind the root
/// and a slash, which is not doubled.
pub proof fn law_joined_paths(root: Seq<char>, path: Seq<char>)
    ensures
        path.len() > 0 && path[0] == '/' ==> joined_path(root, path) == path,
        !(path.len() > 0 && path[0] == '/') && root.len() > 0 && root.last() != '/' ==> joined_path(
            root,
            path,
        ) == root + seq!['/'] + path,
        !(path.len() > 0 && path[0] == '/') && (root.len() == 0 || root.last() == '/')
            ==> joined_path(root, path) == root + path,
{
    assert(root.push('/') =~= root + seq!['/']);
}

/// Sorted paths come one before the other, each path is among them, and each of them is the first
/// spelling of its path.
pub proof fn law_sorted_paths(sorted: Seq<Seq<char>>, paths: Seq<Seq<char>>, i: int, j: int)
    requires
        sorted_paths(sorted, paths),
    ensures
        0 <= i < j < sorted.len() ==> comes_before(
            components_of(sorted[i]),
            components_of(sorted[j]),
            component_less(),
        ),
        0 <= j < paths.len() ==> exists|m: int|
            0 <= m < sorted.len() && components_of(#[trigger] sorted[m]) == components_of(paths[j]),
        0 <= i < sorted.len() ==> exists|m: int|
            0 <= m < paths.len() && #[trigger] paths[m] == sorted[i] && (forall|k: int|
                0 <= k < m ==> components_of(#[trigger] paths[k]) != components_of(sorted[i])),
{
    if 0 <= i < j < sorted.len() {
        assert(path_less(sorted[i], sorted[j]));
    }
    if 0 <= j < paths.len() {
        assert(components_of(paths[j]) == components_of(paths[j]));
        assert(has_path(paths, paths[j]));
        assert(has_path(sorted, paths[j]));
    }
    if 0 <= i < sorted.len() {
        assert(is_first_spelling(paths, sorted[i]));
        let m = choose|m: int|
            0 <= m < paths.len() && #[trigger] paths[m] == sorted[i] && !has_path(
                paths.take(m),
                sorted[i],
            );
        assert forall|k: int| 0 <= k < m implies components_of(#[trigger] paths[k])
            != components_of(sorted[i]) by {
            assert(paths.take(m)[k] == paths[k]);
        }
        assert(paths[m] == sorted[i]);
    }
}

} // verus!
