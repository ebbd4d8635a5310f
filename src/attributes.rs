//! Named attribute slots of an entity, each with a rolling mean of the
//! confidences it was observed with.
use vstd::prelude::*;

use crate::text::{chars_of, contains, seq_contains};

verus! {

/// The attribute slots.
#[derive(Debug, Clone, Copy, PartialEq, Eq, Structural)]
pub enum AttributeType {
    Color,
    Taste,
    Texture,
    Size,
    Category,
    Price,
    Brand,
    Origin,
    Material,
    Custom,
}

impl AttributeType {
    /// The key under which the slot is stored.
    pub fn key(&self) -> (r: &'static str)
    {
        match self {
            AttributeType::Color => "color",
            AttributeType::Taste => "taste",
            AttributeType::Texture => "texture",
            AttributeType::Size => "size",
            AttributeType::Category => "category",
            AttributeType::Price => "price",
            AttributeType::Brand => "brand",
            AttributeType::Origin => "origin",
            AttributeType::Material => "material",
            AttributeType::Custom => "custom",
        }
    }
}

/// One observed attribute value.
#[derive(Debug, Clone)]
pub struct Attribute {
    pub value: String,
    /// Mean confidence of the observations, in thousandths.
    pub confidence: u32,
    pub count: u64,
    pub first_seen: i64,
    pub last_seen: i64,
}

/// The rolling mean after one more observation: `(mean * count + c) / (count + 1)`,
/// rounded down.
pub open spec fn rolling_mean(mean: int, count: int, c: int) -> int {
    (mean * count + c) / (count + 1)
}

impl Attribute {
    pub open spec fn wf(&self) -> bool {
        self.confidence <= 1000 && self.count >= 1 && self.last_seen >= self.first_seen
    }

    /// A first observation at `now`.
    pub fn new(value: String, confidence: u32, now: i64) -> (r: Attribute)
        requires
            confidence <= 1000,
        ensures
            r.wf(),
            r.value == value,
            r.confidence == confidence,
            r.count == 1,
            r.first_seen == now,
            r.last_seen == now,
    {
        Attribute { value, confidence, count: 1, first_seen: now, last_seen: now }
    }

    /// Folds one more observation with confidence `c` into the mean.
    pub fn update(&mut self, c: u32, now: i64)
        requires
            old(self).wf(),
            c <= 1000,
            old(self).count < u32::MAX,
        ensures
            final(self).wf(),
            final(self).count == old(self).count + 1,
            final(self).confidence == rolling_mean(old(self).confidence as int, old(self).count as int, c as int),
            final(self).last_seen == if now > old(self).last_seen { now } else { old(self).last_seen },
            final(self).first_seen == old(self).first_seen,
            final(self).value == old(self).value,
    {
        let count = self.count;
        proof {
            assert((self.confidence as int) * (count as int) <= 1000 * (count as int)) by (nonlinear_arith)
                requires self.confidence <= 1000, count >= 1;
            assert((self.confidence as int) * (count as int) >= 0) by (nonlinear_arith)
                requires count >= 1;
            assert(((self.confidence as int) * (count as int) + c) / (count + 1) <= 1000) by (nonlinear_arith)
                requires (self.confidence as int) * (count as int) <= 1000 * (count as int), c <= 1000, count >= 1;
        }
        let mean = ((self.confidence as u64) * count + (c as u64)) / (count + 1);
        self.confidence = mean as u32;
        self.count = count + 1;
        if now > self.last_seen {
            self.last_seen = now;
        }
    }
}

/// An entity's attributes, at most one per slot.
pub struct AttributeMap {
    pub entries: Vec<(AttributeType, Attribute)>,
}

/// The attribute in slot `t`, if any.
pub open spec fn slot(entries: Seq<(AttributeType, Attribute)>, t: AttributeType) -> Option<Attribute> {
    if exists|i: int| 0 <= i < entries.len() && entries[i].0 == t {
        let i = choose|i: int| 0 <= i < entries.len() && entries[i].0 == t;
        Some(entries[i].1)
    } else {
        None
    }
}

impl AttributeMap {
    pub open spec fn wf(&self) -> bool {
        &&& forall|i: int, j: int| 0 <= i < self.entries@.len() && 0 <= j < self.entries@.len() && i != j
            ==> (#[trigger] self.entries@[i]).0 != (#[trigger] self.entries@[j]).0
        &&& forall|i: int| 0 <= i < self.entries@.len() ==> (#[trigger] self.entries@[i]).1.wf()
    }

    pub fn new() -> (r: AttributeMap)
        ensures
            r.wf(),
            r.entries@.len() == 0,
    {
        AttributeMap { entries: Vec::new() }
    }

    /// Records an observation of slot `t` with value `value` and confidence
    /// `c` at `now`. Observations below `threshold` are dropped; a slot seen
    /// before folds the confidence into its mean; a new slot is added.
    pub fn observe(&mut self, t: AttributeType, value: String, c: u32, threshold: u32, now: i64)
        requires
            old(self).wf(),
            c <= 1000,
            forall|i: int| 0 <= i < old(self).entries@.len() ==> (#[trigger] old(self).entries@[i]).1.count < u32::MAX,
        ensures
            final(self).wf(),
            c < threshold ==> final(self).entries@ == old(self).entries@,
            forall|u: AttributeType| u != t ==> slot(final(self).entries@, u) == slot(old(self).entries@, u),
            c >= threshold && slot(old(self).entries@, t) is None ==> slot(final(self).entries@, t) is Some
                && slot(final(self).entries@, t)->Some_0.confidence == c
                && slot(final(self).entries@, t)->Some_0.count == 1
                && slot(final(self).entries@, t)->Some_0.first_seen == now
                && slot(final(self).entries@, t)->Some_0.value == value,
            c >= threshold && slot(old(self).entries@, t) is Some ==> ({
                let a = slot(old(self).entries@, t)->Some_0;
                let b = slot(final(self).entries@, t)->Some_0;
                &&& slot(final(self).entries@, t) is Some
                &&& b.count == a.count + 1
                &&& b.confidence == rolling_mean(a.confidence as int, a.count as int, c as int)
                &&& b.value == a.value
            }),
    {
        if c < threshold {
            return;
        }
        let ghost before = self.entries@;
        let mut i: usize = 0;
        while i < self.entries.len()
            invariant
                i <= self.entries@.len(),
                self.entries@ == before,
                before == old(self).entries@,
                old(self).wf(),
                c <= 1000,
                c >= threshold,
                forall|k: int| 0 <= k < old(self).entries@.len() ==> (#[trigger] old(self).entries@[k]).1.count < u32::MAX,
                forall|k: int| 0 <= k < i ==> self.entries@[k].0 != t,
            decreases self.entries@.len() - i,
        {
            if self.entries[i].0 == t {
                let (ty, mut a) = self.entries.remove(i);
                proof {
                    assert(before[i as int].1.wf());
                    assert(before[i as int].1.count < u32::MAX);
                }
                a.update(c, now);
                self.entries.insert(i, (ty, a));
                proof {
                    let e = self.entries@;
                    assert forall|k: int| 0 <= k < e.len() && k != i implies e[k] == before[k] by {}
                    assert(slot(before, t) == Some(before[i as int].1)) by {
                        let w = choose|w: int| 0 <= w < before.len() && before[w].0 == t;
                        if w != i as int {
                            assert(before[w].0 != before[i as int].0);
                        }
                    }
                    assert(slot(e, t) == Some(e[i as int].1)) by {
                        assert(e[i as int].0 == t);
                        let w = choose|w: int| 0 <= w < e.len() && e[w].0 == t;
                        if w != i as int {
                            assert(e[w] == before[w]);
                            assert(before[w].0 != before[i as int].0);
                        }
                    }
                    assert forall|u: AttributeType| u != t implies slot(e, u) == slot(before, u) by {
                        if exists|w: int| 0 <= w < before.len() && before[w].0 == u {
                            let w = choose|w: int| 0 <= w < before.len() && before[w].0 == u;
                            assert(w != i as int);
                            assert(e[w] == before[w]);
                            let w2 = choose|w2: int| 0 <= w2 < e.len() && e[w2].0 == u;
                            assert(w2 != i as int);
                            assert(e[w2] == before[w2]);
                        } else {
                            assert forall|w: int| 0 <= w < e.len() implies e[w].0 != u by {
                                if w != i as int { assert(e[w] == before[w]); }
                            }
                        }
                    }
                    assert forall|a1: int, b1: int| 0 <= a1 < e.len() && 0 <= b1 < e.len() && a1 != b1
                        implies (#[trigger] e[a1]).0 != (#[trigger] e[b1]).0 by {
                        assert(e[a1].0 == before[a1].0);
                        assert(e[b1].0 == before[b1].0);
                    }
                    assert forall|k: int| 0 <= k < e.len() implies (#[trigger] e[k]).1.wf() by {
                        if k != i as int { assert(e[k] == before[k]); }
                    }
                }
                return;
            }
            i += 1;
        }
        let a = Attribute::new(value, c, now);
        self.entries.push((t, a));
        proof {
            let e = self.entries@;
            assert(slot(before, t) is None);
            assert(slot(e, t) == Some(e[before.len() as int].1)) by {
                assert(e[before.len() as int].0 == t);
                let w = choose|w: int| 0 <= w < e.len() && e[w].0 == t;
                if w < before.len() {
                    assert(e[w] == before[w]);
                }
            }
            assert forall|u: AttributeType| u != t implies slot(e, u) == slot(before, u) by {
                if exists|w: int| 0 <= w < before.len() && before[w].0 == u {
                    let w = choose|w: int| 0 <= w < before.len() && before[w].0 == u;
                    assert(e[w] == before[w]);
                    let w2 = choose|w2: int| 0 <= w2 < e.len() && e[w2].0 == u;
                    assert(w2 < before.len());
                    assert(e[w2] == before[w2]);
                } else {
                    assert forall|w: int| 0 <= w < e.len() implies e[w].0 != u by {
                        if w < before.len() { assert(e[w] == before[w]); }
                    }
                }
            }
            assert forall|a1: int, b1: int| 0 <= a1 < e.len() && 0 <= b1 < e.len() && a1 != b1
                implies (#[trigger] e[a1]).0 != (#[trigger] e[b1]).0 by {
                if a1 < before.len() { assert(e[a1] == before[a1]); }
                if b1 < before.len() { assert(e[b1] == before[b1]); }
            }
            assert forall|k: int| 0 <= k < e.len() implies (#[trigger] e[k]).1.wf() by {
                if k < before.len() { assert(e[k] == before[k]); }
            }
        }
    }
}


/// Words that name a colour, longest first within each family.
pub open spec fn color_words() -> Seq<&'static str> {
    seq!["金黄色", "银色", "粉红色", "紫红色", "橙黄色", "红色", "红", "绿色", "绿", "蓝色", "蓝", "黄色", "黄", "黑色", "黑", "白色", "白", "紫色", "紫", "橙色", "橙", "粉色", "粉", "棕色", "褐", "灰色", "灰", "银", "金", "golden"]
}

pub open spec fn taste_words() -> Seq<&'static str> {
    seq!["甜甜的", "香香", "鲜美", "浓郁", "清淡", "甜", "酸", "苦", "辣", "咸", "淡", "美味", "好吃", "难吃", "香"]
}

pub open spec fn texture_words() -> Seq<&'static str> {
    seq!["酥脆", "柔软", "坚硬", "光滑", "粘稠", "脆", "软", "硬", "滑", "粘", "干", "粗糙", "湿润", "多汁", "松软"]
}

pub open spec fn size_words() -> Seq<&'static str> {
    seq!["巨大", "超大", "特大", "微小", "迷你", "大号", "小号", "大", "小", "中等", "中", "细", "粗", "厚", "薄", "长", "短"]
}

pub open spec fn category_names() -> Seq<&'static str> {
    seq!["水果", "蔬菜", "电子产品", "食物", "饮料", "交通工具"]
}

pub open spec fn category_groups() -> Seq<Seq<&'static str>> {
    seq![
        seq!["水果", "苹果", "香蕉", "橙子"],
        seq!["蔬菜", "白菜", "萝卜", "西红柿"],
        seq!["手机", "电脑", "平板", "电子产品"],
        seq!["食物", "饭", "面", "面包", "蛋糕"],
        seq!["饮料", "水", "茶", "咖啡", "果汁"],
        seq!["车", "汽车", "自行车", "飞机"]
    ]
}

fn category_group(g: usize) -> (r: Vec<&'static str>)
    requires
        g < 6,
    ensures
        r@ == category_groups()[g as int],
{
    if g == 0 {
        let r = vec!["水果", "苹果", "香蕉", "橙子"];
        assert(r@ =~= category_groups()[0]);
        return r;
    }
    if g == 1 {
        let r = vec!["蔬菜", "白菜", "萝卜", "西红柿"];
        assert(r@ =~= category_groups()[1]);
        return r;
    }
    if g == 2 {
        let r = vec!["手机", "电脑", "平板", "电子产品"];
        assert(r@ =~= category_groups()[2]);
        return r;
    }
    if g == 3 {
        let r = vec!["食物", "饭", "面", "面包", "蛋糕"];
        assert(r@ =~= category_groups()[3]);
        return r;
    }
    if g == 4 {
        let r = vec!["饮料", "水", "茶", "咖啡", "果汁"];
        assert(r@ =~= category_groups()[4]);
        return r;
    }
    if g == 5 {
        let r = vec!["车", "汽车", "自行车", "飞机"];
        assert(r@ =~= category_groups()[5]);
        return r;
    }
    unreached()
}

pub open spec fn price_names() -> Seq<&'static str> {
    seq!["昂贵", "便宜", "中等"]
}

pub open spec fn price_groups() -> Seq<Seq<&'static str>> {
    seq![
        seq!["贵", "昂贵", "价格高"],
        seq!["便宜", "实惠", "不贵"],
        seq!["适中", "一般", "还行"]
    ]
}

fn price_group(g: usize) -> (r: Vec<&'static str>)
    requires
        g < 3,
    ensures
        r@ == price_groups()[g as int],
{
    if g == 0 {
        let r = vec!["贵", "昂贵", "价格高"];
        assert(r@ =~= price_groups()[0]);
        return r;
    }
    if g == 1 {
        let r = vec!["便宜", "实惠", "不贵"];
        assert(r@ =~= price_groups()[1]);
        return r;
    }
    if g == 2 {
        let r = vec!["适中", "一般", "还行"];
        assert(r@ =~= price_groups()[2]);
        return r;
    }
    unreached()
}

/// The first word of `ws`, from `k` on, that occurs in `c`.
pub open spec fn first_word(ws: Seq<&'static str>, c: Seq<char>, k: int) -> Option<int>
    decreases ws.len() - k,
{
    if k < 0 || k >= ws.len() {
        None
    } else if seq_contains(c, ws[k]@) {
        Some(k)
    } else {
        first_word(ws, c, k + 1)
    }
}

/// The first group, from `g` on, with a word that occurs in `c`.
pub open spec fn first_group(gs: Seq<Seq<&'static str>>, c: Seq<char>, g: int) -> Option<int>
    decreases gs.len() - g,
{
    if g < 0 || g >= gs.len() {
        None
    } else if first_word(gs[g], c, 0) is Some {
        Some(g)
    } else {
        first_group(gs, c, g + 1)
    }
}

/// The value and confidence that rule extraction gives slot `t` for the
/// context `c`: the first colour, taste, texture or size word found (0.7),
/// or the name of the first category or price level one of whose words is
/// found (0.6). Other slots are not extracted by rule.
pub open spec fn extracted(t: AttributeType, c: Seq<char>) -> Option<(Seq<char>, u32)> {
    let word = |ws: Seq<&'static str>| match first_word(ws, c, 0) {
        Some(k) => Some((ws[k]@, 700u32)),
        None => None,
    };
    match t {
        AttributeType::Color => word(color_words()),
        AttributeType::Taste => word(taste_words()),
        AttributeType::Texture => word(texture_words()),
        AttributeType::Size => word(size_words()),
        AttributeType::Category => match first_group(category_groups(), c, 0) {
            Some(g) => Some((category_names()[g]@, 600u32)),
            None => None,
        },
        AttributeType::Price => match first_group(price_groups(), c, 0) {
            Some(g) => Some((price_names()[g]@, 600u32)),
            None => None,
        },
        _ => None,
    }
}

/// The value and confidence held in slot `t`.
pub open spec fn slot_view(entries: Seq<(AttributeType, Attribute)>, t: AttributeType) -> Option<(Seq<char>, u32)> {
    match slot(entries, t) {
        Some(a) => Some((a.value@, a.confidence)),
        None => None,
    }
}

fn find_word(c: &[char], ws: &Vec<&'static str>) -> (r: Option<usize>)
    ensures
        r is None ==> first_word(ws@, c@, 0) is None,
        r is Some ==> first_word(ws@, c@, 0) == Some(r->Some_0 as int) && r->Some_0 < ws@.len(),
{
    let mut k: usize = 0;
    while k < ws.len()
        invariant
            k <= ws@.len(),
            first_word(ws@, c@, 0) == first_word(ws@, c@, k as int),
        decreases ws@.len() - k,
    {
        let w = chars_of(ws[k]);
        if contains(c, w.as_slice()) {
            return Some(k);
        }
        k += 1;
    }
    None
}

fn find_group(c: &[char], n: usize, category: bool) -> (r: Option<usize>)
    requires
        category ==> n == category_groups().len(),
        !category ==> n == price_groups().len(),
    ensures
        category && r is None ==> first_group(category_groups(), c@, 0) is None,
        category && r is Some ==> first_group(category_groups(), c@, 0) == Some(r->Some_0 as int) && r->Some_0 < n,
        !category && r is None ==> first_group(price_groups(), c@, 0) is None,
        !category && r is Some ==> first_group(price_groups(), c@, 0) == Some(r->Some_0 as int) && r->Some_0 < n,
{
    let ghost gs = if category { category_groups() } else { price_groups() };
    let mut g: usize = 0;
    while g < n
        invariant
            gs == if category { category_groups() } else { price_groups() },
            n == gs.len(),
            g <= n,
            first_group(gs, c@, 0) == first_group(gs, c@, g as int),
        decreases n - g,
    {
        let words = if category { category_group(g) } else { price_group(g) };
        if find_word(c, &words).is_some() {
            return Some(g);
        }
        g += 1;
    }
    None
}

/// The attributes that rule extraction finds in a context, first seen at
/// `now`, each counted once.
pub fn extract_attributes(context: &str, now: i64) -> (r: AttributeMap)
    ensures
        r.wf(),
        forall|t: AttributeType| slot_view(r.entries@, t) == extracted(t, context@),
        forall|t: AttributeType| slot(r.entries@, t) is Some ==> slot(r.entries@, t)->Some_0.count == 1
            && slot(r.entries@, t)->Some_0.first_seen == now,
{
    let c = chars_of(context);
    let mut map = AttributeMap::new();
    let tables: Vec<Vec<&'static str>> = vec![
        vec!["金黄色", "银色", "粉红色", "紫红色", "橙黄色", "红色", "红", "绿色", "绿", "蓝色", "蓝", "黄色", "黄", "黑色", "黑", "白色", "白", "紫色", "紫", "橙色", "橙", "粉色", "粉", "棕色", "褐", "灰色", "灰", "银", "金", "golden"],
        vec!["甜甜的", "香香", "鲜美", "浓郁", "清淡", "甜", "酸", "苦", "辣", "咸", "淡", "美味", "好吃", "难吃", "香"],
        vec!["酥脆", "柔软", "坚硬", "光滑", "粘稠", "脆", "软", "硬", "滑", "粘", "干", "粗糙", "湿润", "多汁", "松软"],
        vec!["巨大", "超大", "特大", "微小", "迷你", "大号", "小号", "大", "小", "中等", "中", "细", "粗", "厚", "薄", "长", "短"],
    ];
    let kinds = vec![AttributeType::Color, AttributeType::Taste, AttributeType::Texture, AttributeType::Size];
    assert(tables@[0]@ =~= color_words());
    assert(tables@[1]@ =~= taste_words());
    assert(tables@[2]@ =~= texture_words());
    assert(tables@[3]@ =~= size_words());
    let mut k: usize = 0;
    while k < 4
        invariant
            c@ == context@,
            tables@.len() == 4,
            kinds@ == seq![AttributeType::Color, AttributeType::Taste, AttributeType::Texture, AttributeType::Size],
            tables@[0]@ == color_words(),
            tables@[1]@ == taste_words(),
            tables@[2]@ == texture_words(),
            tables@[3]@ == size_words(),
            k <= 4,
            map.wf(),
            forall|i: int| 0 <= i < map.entries@.len() ==> (#[trigger] map.entries@[i]).1.count == 1,
            forall|t: AttributeType| slot(map.entries@, t) is Some ==> slot(map.entries@, t)->Some_0.count == 1
                && slot(map.entries@, t)->Some_0.first_seen == now,
            forall|m: int| 0 <= m < k ==> slot_view(map.entries@, #[trigger] kinds@[m]) == extracted(kinds@[m], context@),
            forall|m: int| k <= m < 4 ==> slot(map.entries@, #[trigger] kinds@[m]) is None,
            forall|t: AttributeType| !(t == AttributeType::Color || t == AttributeType::Taste || t == AttributeType::Texture
                || t == AttributeType::Size) ==> slot(map.entries@, t) is None,
        decreases 4 - k,
    {
        let ghost before = map.entries@;
        if let Some(w) = find_word(c.as_slice(), &tables[k]) {
            let value = tables[k][w].to_string();
            map.observe(kinds[k], value, 700, 0, now);
        }
        proof {
            assert forall|i: int| 0 <= i < map.entries@.len() implies (#[trigger] map.entries@[i]).1.count == 1 by {
                let t = map.entries@[i].0;
                assert(map.entries@[i].1 == slot(map.entries@, t)->Some_0) by {
                    let w2 = choose|w2: int| 0 <= w2 < map.entries@.len() && map.entries@[w2].0 == t;
                    if w2 != i {
                        assert(map.entries@[w2].0 != map.entries@[i].0);
                    }
                }
            }
        }
        k += 1;
    }
    proof {
        assert forall|t: AttributeType| t == AttributeType::Category || t == AttributeType::Price implies slot(map.entries@, t) is None by {}
    }
    if let Some(g) = find_group(c.as_slice(), 6, true) {
        let names = vec!["水果", "蔬菜", "电子产品", "食物", "饮料", "交通工具"];
        assert(names@ =~= category_names());
        map.observe(AttributeType::Category, names[g].to_string(), 600, 0, now);
    }
    if let Some(g) = find_group(c.as_slice(), 3, false) {
        let names = vec!["昂贵", "便宜", "中等"];
        assert(names@ =~= price_names());
        map.observe(AttributeType::Price, names[g].to_string(), 600, 0, now);
    }
    proof {
        assert forall|t: AttributeType| slot_view(map.entries@, t) == extracted(t, context@) by {
            if t == AttributeType::Color { assert(kinds@[0] == t); }
            else if t == AttributeType::Taste { assert(kinds@[1] == t); }
            else if t == AttributeType::Texture { assert(kinds@[2] == t); }
            else if t == AttributeType::Size { assert(kinds@[3] == t); }
        }
    }
    map
}

} // verus!
