use vstd::prelude::*;
use std::rc::Rc;
use crate::token::{Span, Tok, Token, join, tokens_view};
use crate::error::{EvalError, Reason, fail};
use crate::text::text_is;

verus! {

/// A value that directives bind, index, iterate and quote.
pub enum Item {
    Ident(Vec<char>, Span),
    Literal(Vec<char>, Span),
    Stream(Vec<Token>),
    List(Vec<Rc<Item>>),
    Dict(Vec<Entry>),
}

/// One key of a map, or one name of a scope, with its value.
pub struct Entry {
    pub key: Vec<char>,
    pub value: Rc<Item>,
}

/// The mathematical value of an item. A map is its entries in order, with
/// each key at most once.
pub enum Val {
    Ident(Seq<char>, Span),
    Literal(Seq<char>, Span),
    Stream(Seq<Tok>),
    List(Seq<Val>),
    Dict(Seq<(Seq<char>, Val)>),
}

pub open spec fn item_view(it: Item) -> Val
    decreases it, 1nat,
{
    match it {
        Item::Ident(s, sp) => Val::Ident(s@, sp),
        Item::Literal(s, sp) => Val::Literal(s@, sp),
        Item::Stream(ts) => Val::Stream(tokens_view(ts@)),
        Item::List(xs) => Val::List(items_view(xs@)),
        Item::Dict(es) => Val::Dict(entries_view(es@)),
    }
}

pub open spec fn items_view(s: Seq<Rc<Item>>) -> Seq<Val>
    decreases s, 0nat,
{
    if s.len() == 0 {
        Seq::empty()
    } else {
        items_view(s.drop_last()).push(item_view(*s.last()))
    }
}

pub open spec fn entries_view(s: Seq<Entry>) -> Seq<(Seq<char>, Val)>
    decreases s, 0nat,
{
    if s.len() == 0 {
        Seq::empty()
    } else {
        entries_view(s.drop_last()).push((s.last().key@, item_view(*s.last().value)))
    }
}

impl View for Item {
    type V = Val;

    open spec fn view(&self) -> Val {
        item_view(*self)
    }
}

pub broadcast proof fn lemma_items_view(s: Seq<Rc<Item>>)
    ensures
        #[trigger] items_view(s).len() == s.len(),
        forall|i: int| 0 <= i < s.len() ==> items_view(s)[i] == item_view(*#[trigger] s[i]),
    decreases s.len(),
{
    if s.len() > 0 {
        lemma_items_view(s.drop_last());
        assert forall|i: int| 0 <= i < s.len() implies items_view(s)[i] == item_view(*#[trigger] s[i]) by {
            if i < s.len() - 1 {
                assert(s.drop_last()[i] == s[i]);
            }
        }
    }
}

pub broadcast proof fn lemma_entries_view(s: Seq<Entry>)
    ensures
        #[trigger] entries_view(s).len() == s.len(),
        forall|i: int| 0 <= i < s.len() ==> entries_view(s)[i] == (#[trigger] s[i].key@, item_view(*s[i].value)),
    decreases s.len(),
{
    if s.len() > 0 {
        lemma_entries_view(s.drop_last());
        assert forall|i: int| 0 <= i < s.len() implies entries_view(s)[i] == (#[trigger] s[i].key@, item_view(*s[i].value)) by {
            if i < s.len() - 1 {
                assert(s.drop_last()[i] == s[i]);
            }
        }
    }
}

/// The position of `k` among the keys of `m`, or -1.
pub open spec fn find_key(m: Seq<(Seq<char>, Val)>, k: Seq<char>) -> int
    decreases m.len(),
{
    if m.len() == 0 {
        -1
    } else if m.last().0 == k {
        m.len() - 1
    } else {
        find_key(m.drop_last(), k)
    }
}

pub open spec fn map_get(m: Seq<(Seq<char>, Val)>, k: Seq<char>) -> Option<Val> {
    let i = find_key(m, k);
    if i >= 0 { Some(m[i].1) } else { None }
}

/// `m` with `k` bound to `v`: an existing entry is overwritten in place,
/// a new key is added at the end.
pub open spec fn map_put(m: Seq<(Seq<char>, Val)>, k: Seq<char>, v: Val) -> Seq<(Seq<char>, Val)> {
    let i = find_key(m, k);
    if i >= 0 { m.update(i, (k, v)) } else { m.push((k, v)) }
}

/// Each key occurs at most once.
pub open spec fn keys_unique(m: Seq<(Seq<char>, Val)>) -> bool {
    forall|i: int, j: int| 0 <= i < m.len() && 0 <= j < m.len() && i != j ==> m[i].0 != m[j].0
}

pub proof fn lemma_find_key(m: Seq<(Seq<char>, Val)>, k: Seq<char>)
    ensures
        -1 <= find_key(m, k) < m.len(),
        find_key(m, k) >= 0 ==> m[find_key(m, k)].0 == k,
        find_key(m, k) == -1 ==> forall|j: int| 0 <= j < m.len() ==> m[j].0 != k,
    decreases m.len(),
{
    if m.len() > 0 {
        lemma_find_key(m.drop_last(), k);
        if m.last().0 != k && find_key(m, k) == -1 {
            assert forall|j: int| 0 <= j < m.len() implies m[j].0 != k by {
                if j < m.len() - 1 {
                    assert(m.drop_last()[j] == m[j]);
                }
            }
        }
    }
}

/// Binding a key keeps the keys of a map unique.
pub proof fn lemma_map_put_unique(m: Seq<(Seq<char>, Val)>, k: Seq<char>, v: Val)
    requires
        keys_unique(m),
    ensures
        keys_unique(map_put(m, k, v)),
        map_get(map_put(m, k, v), k) == Some(v),
{
    lemma_find_key(m, k);
    let r = map_put(m, k, v);
    lemma_find_key(r, k);
    if find_key(m, k) >= 0 {
        let i = find_key(m, k);
        assert forall|a: int, b: int| 0 <= a < r.len() && 0 <= b < r.len() && a != b implies r[a].0 != r[b].0 by {
            if a != i && b != i {
                assert(m[a].0 != m[b].0);
            }
        }
    } else {
        assert forall|a: int, b: int| 0 <= a < r.len() && 0 <= b < r.len() && a != b implies r[a].0 != r[b].0 by {
            if a < m.len() && b < m.len() {
                assert(m[a].0 != m[b].0);
            }
        }
    }
    assert(r.len() > 0);
    if find_key(r, k) != find_key(m, k) && find_key(m, k) >= 0 {
        assert(r[find_key(m, k)].0 == k);
    }
    if find_key(m, k) < 0 {
        assert(r.last().0 == k);
    }
}

/// The position of the entry whose key is `k`, if any.
pub fn find_entry(entries: &Vec<Entry>, k: &Vec<char>) -> (r: Option<usize>)
    ensures
        match r {
            Some(i) => find_key(entries_view(entries@), k@) == i as int,
            None => find_key(entries_view(entries@), k@) == -1,
        },
{
    broadcast use lemma_entries_view;
    let mut i: usize = entries.len();
    assert(entries@.subrange(0, i as int) =~= entries@);
    while i > 0
        invariant
            i <= entries.len(),
            find_key(entries_view(entries@.subrange(0, i as int)), k@) == find_key(entries_view(entries@), k@),
        decreases i,
    {
        let ghost p = entries@.subrange(0, i as int);
        assert(p.drop_last() =~= entries@.subrange(0, i - 1));
        let ghost pv = entries_view(p);
        proof {
            lemma_entries_view(p);
        }
        assert(pv.drop_last() =~= entries_view(p.drop_last()));
        assert(pv.last().0 == entries@[i - 1].key@);
        assert(pv.len() == i);
        if text_is(&entries[i - 1].key, k.as_slice()) {
            return Some(i - 1);
        }
        i = i - 1;
    }
    None
}

/// Another pointer to the same value.
pub(crate) fn share(it: &Rc<Item>) -> (r: Rc<Item>)
    ensures
        r == *it,
{
    Rc::clone(it)
}

/// One step of a path: a map key or a list position.
pub enum Key {
    String(Vec<char>),
    Index(usize),
}

pub enum KeyV {
    Name(Seq<char>),
    Index(usize),
}

/// One step of a path with its location.
pub struct Segment {
    pub span: Span,
    pub key: Key,
}

pub struct SegV {
    pub span: Span,
    pub key: KeyV,
}

impl View for Segment {
    type V = SegV;

    open spec fn view(&self) -> SegV {
        SegV {
            span: self.span,
            key: match self.key {
                Key::String(s) => KeyV::Name(s@),
                Key::Index(i) => KeyV::Index(i),
            },
        }
    }
}

pub open spec fn segs_view(p: Seq<Segment>) -> Seq<SegV> {
    p.map_values(|s: Segment| s@)
}

/// Follows `path` from `v`; `span` is the location of what was followed so far.
pub open spec fn index_item(v: Val, span: Span, path: Seq<SegV>) -> Result<Val, EvalError>
    decreases path.len(),
{
    if path.len() == 0 {
        Ok(v)
    } else {
        let s = path[0];
        match v {
            Val::List(xs) => match s.key {
                KeyV::Name(_) => Err(fail(s.span, Reason::ListByIdent)),
                KeyV::Index(i) => if i < xs.len() {
                    index_item(xs[i as int], join(span, s.span), path.drop_first())
                } else {
                    Err(fail(s.span, Reason::ItemNotFound))
                },
            },
            Val::Dict(m) => match s.key {
                KeyV::Index(_) => Err(fail(s.span, Reason::MapByInteger)),
                KeyV::Name(k) => match map_get(m, k) {
                    Some(x) => index_item(x, join(span, s.span), path.drop_first()),
                    None => Err(fail(s.span, Reason::ItemNotFound)),
                },
            },
            _ => Err(fail(span, Reason::NotIndexable)),
        }
    }
}

impl Item {
    /// Follows `path` from this item.
    pub fn get_item(self: &Rc<Self>, span: Span, path: &[Segment]) -> (r: Result<Rc<Item>, EvalError>)
        ensures
            match r {
                Ok(it) => index_item((**self)@, span, segs_view(path@)) == Ok::<Val, EvalError>(it@),
                Err(e) => index_item((**self)@, span, segs_view(path@)) == Err::<Val, EvalError>(e),
            },
    {
        let ghost full = segs_view(path@);
        let mut cur: &Rc<Item> = self;
        let mut sp = span;
        let mut i: usize = 0;
        assert(full.subrange(0, full.len() as int) =~= full);
        while i < path.len()
            invariant
                i <= path.len(),
                full == segs_view(path@),
                full.len() == path@.len(),
                index_item((**self)@, span, full) == index_item((**cur)@, sp, full.subrange(i as int, full.len() as int)),
            decreases path.len() - i,
        {
            let seg = &path[i];
            let ghost rest = full.subrange(i as int, full.len() as int);
            assert(rest[0] == seg@);
            assert(rest.drop_first() =~= full.subrange(i + 1, full.len() as int));
            let ghost before = (**cur)@;
            let ghost sp0 = sp;
            match &**cur {
                Item::List(list) => match &seg.key {
                    Key::String(_) => {
                        return Err(EvalError { span: seg.span, reason: Reason::ListByIdent });
                    },
                    Key::Index(idx) => {
                        if *idx < list.len() {
                            proof {
                                lemma_items_view(list@);
                            }
                            cur = &list[*idx];
                            assert(before == Val::List(items_view(list@)));
                            assert(items_view(list@)[*idx as int] == (**cur)@);
                            assert(index_item(before, sp0, rest) == index_item((**cur)@, join(sp0, seg.span), rest.drop_first()));
                        } else {
                            proof {
                                lemma_items_view(list@);
                            }
                            return Err(EvalError { span: seg.span, reason: Reason::ItemNotFound });
                        }
                    },
                },
                Item::Dict(es) => match &seg.key {
                    Key::Index(_) => {
                        return Err(EvalError { span: seg.span, reason: Reason::MapByInteger });
                    },
                    Key::String(k) => match find_entry(es, k) {
                        Some(j) => {
                            proof {
                                lemma_entries_view(es@);
                                lemma_find_key(entries_view(es@), k@);
                            }
                            cur = &es[j].value;
                            assert(before == Val::Dict(entries_view(es@)));
                            assert(entries_view(es@)[j as int] == (es@[j as int].key@, item_view(*es@[j as int].value)));
                            assert(find_key(entries_view(es@), k@) == j as int);
                            assert(map_get(entries_view(es@), k@) == Some((**cur)@));
                            assert(index_item(before, sp0, rest) == index_item((**cur)@, join(sp0, seg.span), rest.drop_first()));
                        },
                        None => {
                            return Err(EvalError { span: seg.span, reason: Reason::ItemNotFound });
                        },
                    },
                },
                _ => {
                    return Err(EvalError { span: sp, reason: Reason::NotIndexable });
                },
            }
            sp = sp.join(seg.span);
            i = i + 1;
        }
        Ok(share(cur))
    }
}

/// The state of the iteration that a scope belongs to.
pub struct IterScope {
    pub first: bool,
    pub last: bool,
    pub index: usize,
    pub key: Vec<char>,
    pub value: Rc<Item>,
}

pub struct IterV {
    pub first: bool,
    pub last: bool,
    pub index: usize,
    pub key: Seq<char>,
    pub value: Val,
}

impl View for IterScope {
    type V = IterV;

    open spec fn view(&self) -> IterV {
        IterV { first: self.first, last: self.last, index: self.index, key: self.key@, value: (*self.value)@ }
    }
}

pub open spec fn iter_view(i: Option<IterScope>) -> Option<IterV> {
    match i {
        Some(s) => Some(s@),
        None => None,
    }
}

struct Scope {
    items: Vec<Entry>,
    iter_scope: Option<IterScope>,
}

/// One level of the environment: its names, and the iteration it belongs to.
pub struct ScopeV {
    pub items: Seq<(Seq<char>, Val)>,
    pub iter: Option<IterV>,
}

/// A stack of scopes, the innermost last.
pub struct Env {
    scopes: Vec<Scope>,
}

impl View for Env {
    type V = Seq<ScopeV>;

    closed spec fn view(&self) -> Seq<ScopeV> {
        self.scopes@.map_values(|s: Scope| ScopeV { items: entries_view(s.items@), iter: iter_view(s.iter_scope) })
    }
}

pub open spec fn push_scope(e: Seq<ScopeV>, iter: Option<IterV>) -> Seq<ScopeV> {
    e.push(ScopeV { items: Seq::empty(), iter })
}

/// `e` with `k` bound to `v` in its innermost scope.
pub open spec fn set_item(e: Seq<ScopeV>, k: Seq<char>, v: Val) -> Seq<ScopeV> {
    e.update(e.len() - 1, ScopeV { items: map_put(e.last().items, k, v), iter: e.last().iter })
}

/// The iteration of the innermost scope that belongs to one.
pub open spec fn iter_of(e: Seq<ScopeV>) -> Option<IterV>
    decreases e.len(),
{
    if e.len() == 0 {
        None
    } else if e.last().iter is Some {
        e.last().iter
    } else {
        iter_of(e.drop_last())
    }
}

/// The value bound to `k` in the innermost scope that binds it.
pub open spec fn lookup(e: Seq<ScopeV>, k: Seq<char>) -> Option<Val>
    decreases e.len(),
{
    if e.len() == 0 {
        None
    } else if map_get(e.last().items, k) is Some {
        map_get(e.last().items, k)
    } else {
        lookup(e.drop_last(), k)
    }
}

/// Resolves a path whose first step names a binding of the environment.
pub open spec fn resolve(e: Seq<ScopeV>, path: Seq<SegV>) -> Result<Val, EvalError> {
    let first = path[0];
    match first.key {
        KeyV::Index(_) => Err(fail(first.span, Reason::ScopeByInteger)),
        KeyV::Name(k) => match lookup(e, k) {
            None => Err(fail(first.span, Reason::ItemNotFound)),
            Some(v) => index_item(v, first.span, path.drop_first()),
        },
    }
}

impl Env {
    /// An environment with one empty root scope.
    pub fn new() -> (r: Env)
        ensures
            r@ == push_scope(Seq::empty(), None),
    {
        let mut scopes: Vec<Scope> = Vec::new();
        scopes.push(Scope { items: Vec::new(), iter_scope: None });
        let r = Env { scopes };
        proof {
            lemma_entries_view(Seq::<Entry>::empty());
        }
        assert(r@ =~= push_scope(Seq::empty(), None));
        r
    }

    pub fn push_scope(&mut self, iter_scope: Option<IterScope>)
        ensures
            final(self)@ == push_scope(old(self)@, iter_view(iter_scope)),
    {
        self.scopes.push(Scope { items: Vec::new(), iter_scope });
        proof {
            lemma_entries_view(Seq::<Entry>::empty());
        }
        assert(final(self)@ =~= push_scope(old(self)@, iter_view(iter_scope)));
    }

    pub fn pop_scope(&mut self)
        ensures
            old(self)@.len() > 0 ==> final(self)@ == old(self)@.drop_last(),
            old(self)@.len() == 0 ==> final(self)@ == old(self)@,
    {
        let _ = self.scopes.pop();
        assert(old(self)@.len() > 0 ==> final(self)@ =~= old(self)@.drop_last());
        assert(old(self)@.len() == 0 ==> final(self)@ =~= old(self)@);
    }

    /// Binds `key` to `item` in the innermost scope.
    pub fn set_item(&mut self, key: Vec<char>, item: Rc<Item>)
        requires
            old(self)@.len() > 0,
        ensures
            final(self)@ == set_item(old(self)@, key@, item@),
    {
        let mut scope = self.scopes.pop().unwrap();
        put_entry(&mut scope.items, key, item);
        self.scopes.push(scope);
        assert(final(self)@ =~= set_item(old(self)@, key@, item@));
    }

    /// The iteration of the innermost scope that belongs to one.
    pub fn get_iter_scope(&self) -> (r: Option<&IterScope>)
        ensures
            match r {
                Some(s) => iter_of(self@) == Some(s@),
                None => iter_of(self@) is None,
            },
    {
        let mut i: usize = self.scopes.len();
        assert(self@.subrange(0, i as int) =~= self@);
        while i > 0
            invariant
                i <= self.scopes.len(),
                self@.len() == self.scopes.len(),
                iter_of(self@) == iter_of(self@.subrange(0, i as int)),
            decreases i,
        {
            let ghost p = self@.subrange(0, i as int);
            assert(p.drop_last() =~= self@.subrange(0, i - 1));
            match &self.scopes[i - 1].iter_scope {
                Some(s) => {
                    return Some(s);
                },
                None => {},
            }
            i = i - 1;
        }
        None
    }

    /// The value bound to `key` in the innermost scope that binds it.
    pub fn lookup(&self, key: &Vec<char>) -> (r: Option<&Rc<Item>>)
        ensures
            match r {
                Some(v) => lookup(self@, key@) == Some((**v)@),
                None => lookup(self@, key@) is None,
            },
    {
        let mut i: usize = self.scopes.len();
        assert(self@.subrange(0, i as int) =~= self@);
        while i > 0
            invariant
                i <= self.scopes.len(),
                self@.len() == self.scopes.len(),
                lookup(self@, key@) == lookup(self@.subrange(0, i as int), key@),
            decreases i,
        {
            let ghost p = self@.subrange(0, i as int);
            assert(p.drop_last() =~= self@.subrange(0, i - 1));
            let items = &self.scopes[i - 1].items;
            proof {
                lemma_entries_view(items@);
                lemma_find_key(entries_view(items@), key@);
            }
            match find_entry(items, key) {
                Some(j) => {
                    assert(entries_view(items@)[j as int] == (items@[j as int].key@, item_view(*items@[j as int].value)));
                    return Some(&items[j].value);
                },
                None => {},
            }
            i = i - 1;
        }
        None
    }

    /// Resolves a path whose first step names a binding.
    pub fn get_item(&self, path: &[Segment]) -> (r: Result<Rc<Item>, EvalError>)
        requires
            path@.len() > 0,
        ensures
            match r {
                Ok(it) => resolve(self@, segs_view(path@)) == Ok::<Val, EvalError>(it@),
                Err(e) => resolve(self@, segs_view(path@)) == Err::<Val, EvalError>(e),
            },
    {
        let first = &path[0];
        let span = first.span;
        let key = match &first.key {
            Key::String(k) => k,
            Key::Index(_) => {
                return Err(EvalError { span, reason: Reason::ScopeByInteger });
            },
        };
        match self.lookup(key) {
            None => Err(EvalError { span, reason: Reason::ItemNotFound }),
            Some(item) => {
                let rest = path.split_at(1).1;
                assert(segs_view(rest@) =~= segs_view(path@).drop_first());
                item.get_item(span, rest)
            },
        }
    }
}

/// Binds `key` to `value` among `entries`, overwriting an existing entry.
pub fn put_entry(entries: &mut Vec<Entry>, key: Vec<char>, value: Rc<Item>)
    ensures
        entries_view(final(entries)@) == map_put(entries_view(old(entries)@), key@, value@),
{
    proof {
        lemma_entries_view(entries@);
        lemma_find_key(entries_view(entries@), key@);
    }
    let ghost m = entries_view(entries@);
    let ghost olds = entries@;
    let ghost kv = key@;
    match find_entry(entries, &key) {
        Some(j) => {
            entries.set(j, Entry { key, value });
        },
        None => {
            entries.push(Entry { key, value });
        },
    }
    proof {
        lemma_entries_view(entries@);
        let nv = entries_view(entries@);
        let want = map_put(m, kv, value@);
        assert(nv.len() == want.len());
        assert forall|i: int| 0 <= i < nv.len() implies nv[i] == want[i] by {
            assert(nv[i] == (entries@[i].key@, item_view(*entries@[i].value)));
            if i < olds.len() {
                assert(m[i] == (olds[i].key@, item_view(*olds[i].value)));
            }
        }
        assert(nv =~= want);
    }
}

} // verus!
