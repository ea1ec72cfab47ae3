//! Device paths and their order.

use vstd::prelude::*;

verus! {

/// One component of a path, as the file system reads it.
pub enum Component {
    /// The root of the file system, at the front of an absolute path.
    RootDir,
    /// A `.` at the front of a relative path.
    CurDir,
    /// A `..`.
    ParentDir,
    /// A name.
    Normal(Vec<u8>),
}

/// The mathematical value of a [`Component`].
pub enum ComponentView {
    RootDir,
    CurDir,
    ParentDir,
    Normal(Seq<u8>),
}

/// The mathematical value of a path: its components in order.
pub type PathView = Seq<ComponentView>;

impl View for Component {
    type V = ComponentView;

    open spec fn view(&self) -> ComponentView {
        match self {
            Component::RootDir => ComponentView::RootDir,
            Component::CurDir => ComponentView::CurDir,
            Component::ParentDir => ComponentView::ParentDir,
            Component::Normal(name) => ComponentView::Normal(name@),
        }
    }
}

impl ComponentView {
    /// The position of the component's kind in the order of components.
    pub open spec fn rank(self) -> int {
        match self {
            ComponentView::RootDir => 0,
            ComponentView::CurDir => 1,
            ComponentView::ParentDir => 2,
            ComponentView::Normal(_) => 3,
        }
    }

    /// The bytes of a name; empty for the other kinds.
    pub open spec fn name(self) -> Seq<u8> {
        match self {
            ComponentView::Normal(name) => name,
            _ => Seq::empty(),
        }
    }
}

/// The outcome of comparing two values.
#[derive(Debug, Clone, Copy, PartialEq, Eq, Structural)]
pub enum Order {
    Less,
    Equal,
    Greater,
}

/// The lexicographic order that `less` gives on sequences: the sequences agree on
/// their first `k` items, and then `a` ends or has the smaller item.
pub open spec fn lex_less<T>(less: spec_fn(T, T) -> bool, a: Seq<T>, b: Seq<T>) -> bool {
    exists|k: int| #[trigger] lex_less_at(less, a, b, k)
}

/// `a` is below `b`, and they first differ at position `k`.
pub open spec fn lex_less_at<T>(
    less: spec_fn(T, T) -> bool,
    a: Seq<T>,
    b: Seq<T>,
    k: int,
) -> bool {
    &&& 0 <= k <= a.len()
    &&& k < b.len()
    &&& forall|i: int| 0 <= i < k ==> a[i] == b[i]
    &&& k < a.len() ==> less(a[k], b[k])
}

/// The order of bytes.
pub open spec fn byte_order() -> spec_fn(u8, u8) -> bool {
    |a: u8, b: u8| a < b
}

/// The order of components: by kind, and names by their bytes.
pub open spec fn component_order() -> spec_fn(ComponentView, ComponentView) -> bool {
    |a: ComponentView, b: ComponentView|
        a.rank() < b.rank() || (a.rank() == b.rank() && lex_less(byte_order(), a.name(), b.name()))
}

/// Whether the path `a` comes before the path `b`.
pub open spec fn path_less(a: PathView, b: PathView) -> bool {
    lex_less(component_order(), a, b)
}

/// A relation under which nothing is below itself and that passes from step to step.
pub open spec fn is_strict_order<T>(less: spec_fn(T, T) -> bool) -> bool {
    &&& forall|a: T| !#[trigger] less(a, a)
    &&& forall|a: T, b: T, c: T| #[trigger] less(a, b) && #[trigger] less(b, c) ==> less(a, c)
}

/// A strict order stays one when it is extended to sequences.
pub proof fn lemma_lex_strict_order<T>(less: spec_fn(T, T) -> bool)
    requires
        is_strict_order(less),
    ensures
        is_strict_order(|a: Seq<T>, b: Seq<T>| lex_less(less, a, b)),
{
    let lifted = |a: Seq<T>, b: Seq<T>| lex_less(less, a, b);
    assert forall|a: Seq<T>| !#[trigger] lifted(a, a) by {
        if lex_less(less, a, a) {
            let k = choose|k: int| #[trigger] lex_less_at(less, a, a, k);
            assert(!less(a[k], a[k]));
        }
    }
    assert forall|a: Seq<T>, b: Seq<T>, c: Seq<T>| #[trigger]
        lifted(a, b) && #[trigger] lifted(b, c) implies lifted(a, c) by {
        let j = choose|k: int| #[trigger] lex_less_at(less, a, b, k);
        let k = choose|k: int| #[trigger] lex_less_at(less, b, c, k);
        if j < k {
            assert(lex_less_at(less, a, c, j));
        } else if k < j {
            assert(lex_less_at(less, a, c, k));
        } else {
            assert(lex_less_at(less, a, c, j));
        }
    }
}

proof fn lemma_component_strict_order()
    ensures
        is_strict_order(component_order()),
{
    lemma_lex_strict_order(byte_order());
    let names = |a: Seq<u8>, b: Seq<u8>| lex_less(byte_order(), a, b);
    let less = component_order();
    assert forall|a: ComponentView| !#[trigger] less(a, a) by {
        assert(!names(a.name(), a.name()));
    }
    assert forall|a: ComponentView, b: ComponentView, c: ComponentView| #[trigger]
        less(a, b) && #[trigger] less(b, c) implies less(a, c) by {
        if a.rank() == b.rank() && b.rank() == c.rank() {
            assert(names(a.name(), b.name()) && names(b.name(), c.name()));
            assert(names(a.name(), c.name()));
        }
    }
}

/// No path comes before itself, and the order passes from step to step.
pub proof fn lemma_path_order(a: PathView, b: PathView, c: PathView)
    ensures
        !path_less(a, a),
        path_less(a, b) && path_less(b, c) ==> path_less(a, c),
{
    lemma_component_strict_order();
    lemma_lex_strict_order(component_order());
    let paths = |a: PathView, b: PathView| lex_less(component_order(), a, b);
    assert(!paths(a, a));
    if path_less(a, b) && path_less(b, c) {
        assert(paths(a, b) && paths(b, c));
        assert(paths(a, c));
    }
}

/// Compares two byte strings.
fn compare_bytes(a: &Vec<u8>, b: &Vec<u8>) -> (order: Order)
    ensures
        order == Order::Equal <==> a@ == b@,
        order == Order::Less ==> lex_less(byte_order(), a@, b@),
        order == Order::Greater ==> lex_less(byte_order(), b@, a@),
{
    let mut i: usize = 0;
    while i < a.len() && i < b.len()
        invariant
            i <= a.len(),
            i <= b.len(),
            forall|j: int| 0 <= j < i ==> a[j] == b[j],
        decreases a.len() - i,
    {
        if a[i] < b[i] {
            assert(lex_less_at(byte_order(), a@, b@, i as int));
            return Order::Less;
        }
        if b[i] < a[i] {
            assert(lex_less_at(byte_order(), b@, a@, i as int));
            return Order::Greater;
        }
        i += 1;
    }
    if i < b.len() {
        assert(lex_less_at(byte_order(), a@, b@, i as int));
        Order::Less
    } else if i < a.len() {
        assert(lex_less_at(byte_order(), b@, a@, i as int));
        Order::Greater
    } else {
        assert(a@ =~= b@);
        Order::Equal
    }
}

impl Component {
    fn rank(&self) -> (rank: u8)
        ensures
            rank == self@.rank(),
    {
        match self {
            Component::RootDir => 0,
            Component::CurDir => 1,
            Component::ParentDir => 2,
            Component::Normal(_) => 3,
        }
    }

    fn compare(&self, other: &Component) -> (order: Order)
        ensures
            order == Order::Equal <==> self@ == other@,
            order == Order::Less ==> component_order()(self@, other@),
            order == Order::Greater ==> component_order()(other@, self@),
    {
        let mine: u8 = self.rank();
        let theirs: u8 = other.rank();
        if mine < theirs {
            return Order::Less;
        }
        if theirs < mine {
            return Order::Greater;
        }
        match (self, other) {
            (Component::Normal(a), Component::Normal(b)) => compare_bytes(a, b),
            _ => Order::Equal,
        }
    }
}

/// The separator of path components.
pub const SEPARATOR: u8 = 47;

/// The byte of which `.` and `..` are made.
pub const DOT: u8 = 46;

/// The pieces between the separators of `bytes`.
pub open spec fn segments(bytes: Seq<u8>) -> Seq<Seq<u8>>
    decreases bytes.len(),
{
    if bytes.len() == 0 {
        seq![Seq::empty()]
    } else {
        let before = segments(bytes.drop_last());
        if bytes.last() == SEPARATOR {
            before.push(Seq::empty())
        } else {
            before.drop_last().push(before.last().push(bytes.last()))
        }
    }
}

/// The component that the piece `segment` stands for: none for an empty piece or a `.`.
pub open spec fn segment_component(segment: Seq<u8>) -> Option<ComponentView> {
    if segment == Seq::<u8>::empty() || segment == seq![DOT] {
        None
    } else if segment == seq![DOT, DOT] {
        Some(ComponentView::ParentDir)
    } else {
        Some(ComponentView::Normal(segment))
    }
}

/// The components that the pieces stand for, in order.
pub open spec fn segment_components(segments: Seq<Seq<u8>>) -> PathView
    decreases segments.len(),
{
    if segments.len() == 0 {
        Seq::empty()
    } else {
        let before = segment_components(segments.drop_last());
        match segment_component(segments.last()) {
            Some(component) => before.push(component),
            None => before,
        }
    }
}

/// The component at the front that no piece stands for: the root of an absolute path, or the `.`
/// at the front of a relative one.
pub open spec fn leading_component(bytes: Seq<u8>) -> PathView {
    if bytes.len() > 0 && bytes[0] == SEPARATOR {
        seq![ComponentView::RootDir]
    } else if bytes.len() > 0 && bytes[0] == DOT && (bytes.len() == 1 || bytes[1] == SEPARATOR) {
        seq![ComponentView::CurDir]
    } else {
        Seq::empty()
    }
}

/// The components of the path that is written `bytes`.
pub open spec fn path_components(bytes: Seq<u8>) -> PathView {
    leading_component(bytes) + segment_components(segments(bytes))
}

/// The path of a device in sysfs. Two ways to write one path, such as with a doubled separator,
/// give the same value.
pub struct SysPath {
    components: Vec<Component>,
    text: Vec<u8>,
}

impl View for SysPath {
    type V = PathView;

    closed spec fn view(&self) -> PathView {
        component_views(self.components@)
    }
}

spec fn component_views(components: Seq<Component>) -> PathView {
    Seq::new(components.len(), |i: int| components[i]@)
}

fn push_segment(components: &mut Vec<Component>, segment: Vec<u8>)
    ensures
        component_views(final(components)@) == (match segment_component(segment@) {
            Some(component) => component_views(old(components)@).push(component),
            None => component_views(old(components)@),
        }),
{
    let ghost before = components@;
    if segment.len() == 0 {
        assert(segment@ =~= Seq::<u8>::empty());
        return;
    }
    if segment.len() == 1 && segment[0] == DOT {
        assert(segment@ =~= seq![DOT]);
        return;
    }
    if segment.len() == 2 && segment[0] == DOT && segment[1] == DOT {
        assert(segment@ =~= seq![DOT, DOT]);
        components.push(Component::ParentDir);
        assert(component_views(components@) =~= component_views(before).push(
            ComponentView::ParentDir,
        ));
        return;
    }
    let ghost name = segment@;
    assert(name != seq![DOT] && name != seq![DOT, DOT]) by {
        assert(seq![DOT].len() == 1 && seq![DOT][0] == DOT);
        assert(seq![DOT, DOT].len() == 2 && seq![DOT, DOT][0] == DOT && seq![DOT, DOT][1] == DOT);
    }
    components.push(Component::Normal(segment));
    assert(component_views(components@) =~= component_views(before).push(
        ComponentView::Normal(name),
    ));
}

proof fn lemma_segments_nonempty(bytes: Seq<u8>)
    ensures
        segments(bytes).len() > 0,
    decreases bytes.len(),
{
    if bytes.len() > 0 {
        lemma_segments_nonempty(bytes.drop_last());
    }
}

impl SysPath {
    /// How the path is written.
    pub closed spec fn text(self) -> Seq<u8> {
        self.text@
    }

    #[verifier::type_invariant]
    spec fn wf(self) -> bool {
        component_views(self.components@) == path_components(self.text@)
    }

    /// Reads a path.
    pub fn new(bytes: &[u8]) -> (path: SysPath)
        ensures
            path@ == path_components(bytes@),
            path.text() == bytes@,
    {
        let mut components: Vec<Component> = Vec::new();
        let mut text: Vec<u8> = Vec::new();
        let len: usize = bytes.len();
        if len > 0 && bytes[0] == SEPARATOR {
            components.push(Component::RootDir);
        } else if len > 0 && bytes[0] == DOT && (len == 1 || bytes[1] == SEPARATOR) {
            components.push(Component::CurDir);
        }
        assert(component_views(components@) =~= leading_component(bytes@));
        let mut segment: Vec<u8> = Vec::new();
        let mut i: usize = 0;
        assert(segments(bytes@.take(0)).drop_last() =~= Seq::empty());
        assert(component_views(components@) =~= leading_component(bytes@) + segment_components(
            segments(bytes@.take(0)).drop_last(),
        ));
        assert(segment@ =~= segments(bytes@.take(0)).last());
        while i < len
            invariant
                i <= len,
                len == bytes@.len(),
                component_views(components@) == leading_component(bytes@) + segment_components(
                    segments(bytes@.take(i as int)).drop_last(),
                ),
                segment@ == segments(bytes@.take(i as int)).last(),
                text@ == bytes@.take(i as int),
            decreases len - i,
        {
            let byte: u8 = bytes[i];
            text.push(byte);
            let ghost done = bytes@.take(i as int);
            let ghost next = bytes@.take(i + 1);
            proof {
                lemma_segments_nonempty(done);
                assert(next.drop_last() =~= done);
                assert(next.last() == byte);
                assert(text@ =~= next);
            }
            if byte == SEPARATOR {
                let ghost before = component_views(components@);
                push_segment(&mut components, segment);
                segment = Vec::new();
                proof {
                    assert(segments(next) == segments(done).push(Seq::empty()));
                    assert(segments(next).drop_last() =~= segments(done));
                    assert(component_views(components@) =~= leading_component(bytes@)
                        + segment_components(segments(done)));
                    assert(segment@ =~= segments(next).last());
                }
            } else {
                segment.push(byte);
                proof {
                    assert(segments(next).drop_last() =~= segments(done).drop_last());
                }
            }
            i += 1;
        }
        proof {
            lemma_segments_nonempty(bytes@);
            assert(bytes@.take(len as int) =~= bytes@);
        }
        push_segment(&mut components, segment);
        assert(component_views(components@) =~= path_components(bytes@));
        SysPath { components, text }
    }

    /// The bytes with which the path is written.
    pub fn as_bytes(&self) -> (bytes: &Vec<u8>)
        ensures
            bytes@ == self.text(),
            path_components(bytes@) == self@,
    {
        proof {
            use_type_invariant(self);
        }
        &self.text
    }

    /// A copy of the path.
    pub fn duplicate(&self) -> (path: SysPath)
        ensures
            path@ == self@,
            path.text() == self.text(),
    {
        proof {
            use_type_invariant(self);
        }
        let mut components: Vec<Component> = Vec::new();
        let mut i: usize = 0;
        while i < self.components.len()
            invariant
                i <= self.components.len(),
                components.len() == i,
                forall|j: int| 0 <= j < i ==> components[j]@ == self.components[j]@,
            decreases self.components.len() - i,
        {
            let component = match &self.components[i] {
                Component::RootDir => Component::RootDir,
                Component::CurDir => Component::CurDir,
                Component::ParentDir => Component::ParentDir,
                Component::Normal(name) => {
                    let copy = name.clone();
                    assert(copy@ =~= name@);
                    Component::Normal(copy)
                },
            };
            components.push(component);
            i += 1;
        }
        assert(component_views(components@) =~= component_views(self.components@));
        let text = self.text.clone();
        assert(text@ =~= self.text@);
        SysPath { components, text }
    }

    /// Compares two paths.
    pub fn compare(&self, other: &SysPath) -> (order: Order)
        ensures
            order == Order::Equal <==> self@ == other@,
            order == Order::Less <==> path_less(self@, other@),
            order == Order::Greater <==> path_less(other@, self@),
    {
        let order = self.compare_components(other);
        proof {
            lemma_path_order(self@, other@, self@);
            lemma_path_order(other@, self@, other@);
        }
        order
    }

    fn compare_components(&self, other: &SysPath) -> (order: Order)
        ensures
            order == Order::Equal <==> self@ == other@,
            order == Order::Less ==> path_less(self@, other@),
            order == Order::Greater ==> path_less(other@, self@),
    {
        let mut i: usize = 0;
        while i < self.components.len() && i < other.components.len()
            invariant
                i <= self.components.len(),
                i <= other.components.len(),
                forall|j: int| 0 <= j < i ==> self.components[j]@ == other.components[j]@,
            decreases self.components.len() - i,
        {
            match self.components[i].compare(&other.components[i]) {
                Order::Less => {
                    assert(lex_less_at(component_order(), self@, other@, i as int));
                    assert(self@ != other@) by {
                        lemma_path_order(self@, other@, self@);
                    }
                    return Order::Less;
                },
                Order::Greater => {
                    assert(lex_less_at(component_order(), other@, self@, i as int));
                    assert(self@ != other@) by {
                        lemma_path_order(self@, other@, self@);
                    }
                    return Order::Greater;
                },
                Order::Equal => {},
            }
            i += 1;
        }
        if i < other.components.len() {
            assert(lex_less_at(component_order(), self@, other@, i as int));
            Order::Less
        } else if i < self.components.len() {
            assert(lex_less_at(component_order(), other@, self@, i as int));
            Order::Greater
        } else {
            assert(self@ =~= other@);
            Order::Equal
        }
    }
}

proof fn lemma_segments_of_piece(piece: Seq<u8>)
    requires
        forall|i: int| 0 <= i < piece.len() ==> #[trigger] piece[i] != SEPARATOR,
    ensures
        segments(piece) == seq![piece],
    decreases piece.len(),
{
    if piece.len() > 0 {
        let less = piece.drop_last();
        lemma_segments_of_piece(less);
        assert(piece.last() != SEPARATOR) by {
            assert(piece[piece.len() - 1] != SEPARATOR);
        }
        assert(less.push(piece.last()) =~= piece);
        assert(segments(piece) =~= seq![piece]);
    } else {
        assert(piece =~= Seq::empty());
    }
}

proof fn lemma_segments_appended(front: Seq<u8>, piece: Seq<u8>)
    requires
        forall|i: int| 0 <= i < piece.len() ==> #[trigger] piece[i] != SEPARATOR,
    ensures
        segments(front + seq![SEPARATOR] + piece) == segments(front).push(piece),
    decreases piece.len(),
{
    let all = front + seq![SEPARATOR] + piece;
    if piece.len() == 0 {
        assert(piece =~= Seq::empty());
        assert(all.drop_last() =~= front);
        assert(all.last() == SEPARATOR);
    } else {
        let less = piece.drop_last();
        lemma_segments_appended(front, less);
        assert(all.drop_last() =~= front + seq![SEPARATOR] + less);
        assert(all.last() == piece[piece.len() - 1]);
        assert(less.push(piece.last()) =~= piece);
        assert(segments(front).push(less).drop_last() =~= segments(front));
        assert(segments(all) =~= segments(front).push(piece));
    }
}

/// A path has one component for each piece between separators, with all the bytes of the piece; but
/// an empty piece is none, and a `.` is one only where the path starts with it. What a separator at
/// the front stands for is the root.
pub proof fn lemma_path_pieces(front: Seq<u8>, piece: Seq<u8>)
    requires
        forall|i: int| 0 <= i < piece.len() ==> #[trigger] piece[i] != 47u8,
    ensures
        path_components(piece) == (if piece == Seq::<u8>::empty() {
            Seq::empty()
        } else if piece == seq![46u8] {
            seq![ComponentView::CurDir]
        } else if piece == seq![46u8, 46u8] {
            seq![ComponentView::ParentDir]
        } else {
            seq![ComponentView::Normal(piece)]
        }),
        path_components(front + seq![47u8] + piece) == (if front.len() == 0 {
            seq![ComponentView::RootDir]
        } else {
            path_components(front)
        }) + (if piece == Seq::<u8>::empty() || piece == seq![46u8] {
            Seq::empty()
        } else if piece == seq![46u8, 46u8] {
            seq![ComponentView::ParentDir]
        } else {
            seq![ComponentView::Normal(piece)]
        }),
{
    reveal_with_fuel(segment_components, 3);
    assert(seq![46u8].len() == 1 && seq![46u8][0] == 46);
    assert(seq![46u8, 46u8].len() == 2 && seq![46u8, 46u8][0] == 46 && seq![46u8, 46u8][1] == 46);
    lemma_segments_of_piece(piece);
    assert(seq![piece].drop_last() =~= Seq::empty());
    assert(seq![piece].last() == piece);
    if piece.len() == 1 && piece[0] == 46 {
        assert(piece =~= seq![46u8]);
    }
    assert(path_components(piece) =~= (if piece == Seq::<u8>::empty() {
        Seq::empty()
    } else if piece == seq![46u8] {
        seq![ComponentView::CurDir]
    } else if piece == seq![46u8, 46u8] {
        seq![ComponentView::ParentDir]
    } else {
        seq![ComponentView::Normal(piece)]
    }));
    let all = front + seq![47u8] + piece;
    lemma_segments_appended(front, piece);
    assert(segments(front).push(piece).drop_last() =~= segments(front));
    if front.len() == 0 {
        assert(front =~= Seq::empty());
        assert(all[0] == 47);
        assert(segments(front) == seq![Seq::<u8>::empty()]);
        assert(segment_components(segments(front)) =~= Seq::empty()) by {
            assert(seq![Seq::<u8>::empty()].drop_last() =~= Seq::empty());
        }
    } else {
        assert(all[0] == front[0]);
        if front.len() == 1 {
            assert(all[1] == 47);
        } else {
            assert(all[1] == front[1]);
        }
        assert(leading_component(all) =~= leading_component(front));
    }
    assert(path_components(all) =~= (if front.len() == 0 {
        seq![ComponentView::RootDir]
    } else {
        path_components(front)
    }) + (if piece == Seq::<u8>::empty() || piece == seq![46u8] {
        Seq::empty()
    } else if piece == seq![46u8, 46u8] {
        seq![ComponentView::ParentDir]
    } else {
        seq![ComponentView::Normal(piece)]
    }));
}

/// Whether `name` is a piece of a path that is neither empty nor `.` nor `..`.
pub open spec fn is_plain_name(name: Seq<u8>) -> bool {
    &&& name.len() > 0
    &&& name != seq![46u8]
    &&& name != seq![46u8, 46u8]
    &&& forall|i: int| 0 <= i < name.len() ==> #[trigger] name[i] != 47u8
}

/// The absolute path that is made of `names`, each after a separator.
pub open spec fn absolute_path(names: Seq<Seq<u8>>) -> Seq<u8>
    decreases names.len(),
{
    if names.len() == 0 {
        Seq::empty()
    } else {
        absolute_path(names.drop_last()) + seq![47u8] + names.last()
    }
}

/// The components of an absolute path of plain names are the root and each of the names, whole.
pub proof fn lemma_plain_path(names: Seq<Seq<u8>>)
    requires
        names.len() > 0,
        forall|i: int| 0 <= i < names.len() ==> is_plain_name(#[trigger] names[i]),
    ensures
        path_components(absolute_path(names)).len() == names.len() + 1,
        path_components(absolute_path(names))[0] == ComponentView::RootDir,
        forall|i: int|
            0 <= i < names.len() ==> path_components(absolute_path(names))[i + 1]
                == ComponentView::Normal(#[trigger] names[i]),
    decreases names.len(),
{
    let front = absolute_path(names.drop_last());
    let last = names.last();
    assert(names[names.len() - 1] == last);
    lemma_path_pieces(front, last);
    if names.len() > 1 {
        assert forall|i: int| 0 <= i < names.len() - 1 implies is_plain_name(
            #[trigger] names.drop_last()[i],
        ) by {
            assert(names.drop_last()[i] == names[i]);
        }
        lemma_plain_path(names.drop_last());
        assert(front.len() > 0);
        assert forall|i: int| 0 <= i < names.len() implies path_components(
            absolute_path(names),
        )[i + 1] == ComponentView::Normal(#[trigger] names[i]) by {
            if i < names.len() - 1 {
                assert(names.drop_last()[i] == names[i]);
            }
        }
    }
}

/// Two absolute paths of plain names are the same path only if they are written alike.
pub proof fn lemma_plain_paths_differ(a: Seq<Seq<u8>>, b: Seq<Seq<u8>>)
    requires
        a.len() > 0,
        b.len() > 0,
        forall|i: int| 0 <= i < a.len() ==> is_plain_name(#[trigger] a[i]),
        forall|i: int| 0 <= i < b.len() ==> is_plain_name(#[trigger] b[i]),
        path_components(absolute_path(a)) == path_components(absolute_path(b)),
    ensures
        a == b,
        absolute_path(a) == absolute_path(b),
{
    lemma_plain_path(a);
    lemma_plain_path(b);
    assert forall|i: int| 0 <= i < a.len() implies a[i] == b[i] by {
        let path = path_components(absolute_path(a));
        assert(path[i + 1] == ComponentView::Normal(a[i]));
        assert(path[i + 1] == ComponentView::Normal(b[i]));
    }
    assert(a =~= b);
}

proof fn lemma_first_difference<T>(a: Seq<T>, b: Seq<T>, from: int) -> (k: int)
    requires
        0 <= from <= a.len(),
        from <= b.len(),
        forall|i: int| 0 <= i < from ==> a[i] == b[i],
    ensures
        0 <= k <= a.len(),
        k <= b.len(),
        forall|i: int| 0 <= i < k ==> a[i] == b[i],
        k < a.len() && k < b.len() ==> a[k] != b[k],
    decreases a.len() - from,
{
    if from < a.len() && from < b.len() && a[from] == b[from] {
        lemma_first_difference(a, b, from + 1)
    } else {
        from
    }
}

proof fn lemma_lex_total<T>(less: spec_fn(T, T) -> bool, a: Seq<T>, b: Seq<T>)
    requires
        forall|x: T, y: T| #[trigger] less(x, y) || x == y || less(y, x),
    ensures
        lex_less(less, a, b) || a == b || lex_less(less, b, a),
{
    let k = lemma_first_difference(a, b, 0);
    if k < a.len() && k < b.len() {
        if less(a[k], b[k]) {
            assert(lex_less_at(less, a, b, k));
        } else {
            assert(less(b[k], a[k]));
            assert(lex_less_at(less, b, a, k));
        }
    } else if k < b.len() {
        assert(lex_less_at(less, a, b, k));
    } else if k < a.len() {
        assert(lex_less_at(less, b, a, k));
    } else {
        assert(a =~= b);
    }
}

/// Of two different paths one comes before the other, and only one of them does.
pub proof fn lemma_path_order_total(a: PathView, b: PathView)
    ensures
        path_less(a, b) || a == b || path_less(b, a),
        !(path_less(a, b) && path_less(b, a)),
        !(path_less(a, b) && a == b),
{
    let less = component_order();
    assert forall|x: ComponentView, y: ComponentView| #[trigger] less(x, y) || x == y || less(
        y,
        x,
    ) by {
        lemma_lex_total(byte_order(), x.name(), y.name());
    }
    lemma_lex_total(less, a, b);
    lemma_path_order(a, b, a);
}

/// A path comes after those that it continues. Otherwise the first components in which two paths
/// differ decide: the root comes first, then `.`, `..` and names; and of two names the first bytes
/// in which they differ decide, a name coming after those that it continues.
pub proof fn lemma_path_order_decided(
    front: PathView,
    a: PathView,
    b: PathView,
    name: Seq<u8>,
    low: u8,
    high: u8,
    u: Seq<u8>,
    v: Seq<u8>,
)
    requires
        low < high,
    ensures
        b.len() > 0 ==> path_less(front, front + b),
        path_less(
            front + seq![ComponentView::RootDir] + a,
            front + seq![ComponentView::CurDir] + b,
        ),
        path_less(
            front + seq![ComponentView::CurDir] + a,
            front + seq![ComponentView::ParentDir] + b,
        ),
        path_less(
            front + seq![ComponentView::ParentDir] + a,
            front + seq![ComponentView::Normal(name)] + b,
        ),
        path_less(
            front + seq![ComponentView::Normal(name + seq![low] + u)] + a,
            front + seq![ComponentView::Normal(name + seq![high] + v)] + b,
        ),
        path_less(
            front + seq![ComponentView::Normal(name)] + a,
            front + seq![ComponentView::Normal(name + seq![high] + v)] + b,
        ),
{
    if b.len() > 0 {
        assert(lex_less_at(component_order(), front, front + b, front.len() as int));
    }
    lemma_components_decide(front, ComponentView::RootDir, a, ComponentView::CurDir, b);
    lemma_components_decide(front, ComponentView::CurDir, a, ComponentView::ParentDir, b);
    lemma_components_decide(front, ComponentView::ParentDir, a, ComponentView::Normal(name), b);
    let lower = name + seq![low] + u;
    let higher = name + seq![high] + v;
    let k = name.len() as int;
    assert(lower[k] == low && higher[k] == high);
    assert(lex_less_at(byte_order(), lower, higher, k));
    assert(lex_less_at(byte_order(), name, higher, k));
    lemma_components_decide(
        front,
        ComponentView::Normal(lower),
        a,
        ComponentView::Normal(higher),
        b,
    );
    lemma_components_decide(
        front,
        ComponentView::Normal(name),
        a,
        ComponentView::Normal(higher),
        b,
    );
}

proof fn lemma_components_decide(
    front: PathView,
    x: ComponentView,
    a: PathView,
    y: ComponentView,
    b: PathView,
)
    requires
        component_order()(x, y),
    ensures
        path_less(front + seq![x] + a, front + seq![y] + b),
{
    let left = front + seq![x] + a;
    let right = front + seq![y] + b;
    let k = front.len() as int;
    assert(left[k] == x && right[k] == y);
    assert(lex_less_at(component_order(), left, right, k));
}

} // verus!
