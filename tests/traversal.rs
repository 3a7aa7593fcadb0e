use either::Either;
use string_cache::DefaultAtom;
use tree_fold::{AndThen, Fold, FoldWith, Visit, VisitWith};

// A tree built from the built-in shapes alone: each element is a text, an
// optional text, or one of two alternative texts.
type Pick = Either<String, String>;
type Inner = Either<Option<String>, Pick>;
type Elem = Either<String, Inner>;

fn text(s: &str) -> String {
    s.to_string()
}

fn strings(items: &[&str]) -> Vec<String> {
    items.iter().map(|s| s.to_string()).collect()
}

fn plain_leaf(s: &str) -> Elem {
    Either::Left(text(s))
}

fn optional(s: Option<&str>) -> Elem {
    Either::Right(Either::Left(s.map(text)))
}

fn first_of_two(s: &str) -> Elem {
    Either::Right(Either::Right(Either::Left(text(s))))
}

fn second_of_two(s: &str) -> Elem {
    Either::Right(Either::Right(Either::Right(text(s))))
}

fn scenario() -> Vec<Elem> {
    vec![plain_leaf("a"), optional(Some("b")), first_of_two("c")]
}

// Uppercases text and counts the texts it folded.
struct Upper {
    seen: usize,
}

impl Fold<String> for Upper {
    fn fold(&mut self, node: String) -> String {
        self.seen += 1;
        node.to_uppercase()
    }
}

impl Fold<Elem> for Upper {
    fn fold(&mut self, node: Elem) -> Elem {
        node.fold_children(self)
    }
}

impl Fold<Inner> for Upper {
    fn fold(&mut self, node: Inner) -> Inner {
        node.fold_children(self)
    }
}

impl Fold<Option<String>> for Upper {
    fn fold(&mut self, node: Option<String>) -> Option<String> {
        node.fold_children(self)
    }
}

impl Fold<Pick> for Upper {
    fn fold(&mut self, node: Pick) -> Pick {
        node.fold_children(self)
    }
}

impl Fold<Vec<Elem>> for Upper {
    fn fold(&mut self, node: Vec<Elem>) -> Vec<Elem> {
        node.fold_children(self)
    }
}

impl Fold<Vec<String>> for Upper {
    fn fold(&mut self, node: Vec<String>) -> Vec<String> {
        node.fold_children(self)
    }
}

impl Fold<Box<String>> for Upper {
    fn fold(&mut self, node: Box<String>) -> Box<String> {
        node.fold_children(self)
    }
}

impl Fold<Box<Option<String>>> for Upper {
    fn fold(&mut self, node: Box<Option<String>>) -> Box<Option<String>> {
        node.fold_children(self)
    }
}

// A folder with no rule of its own: every node type takes its structural rule.
struct Plain;

impl Fold<String> for Plain {
    fn fold(&mut self, node: String) -> String {
        node.fold_children(self)
    }
}

impl Fold<DefaultAtom> for Plain {
    fn fold(&mut self, node: DefaultAtom) -> DefaultAtom {
        node.fold_children(self)
    }
}

impl Fold<Elem> for Plain {
    fn fold(&mut self, node: Elem) -> Elem {
        node.fold_children(self)
    }
}

impl Fold<Inner> for Plain {
    fn fold(&mut self, node: Inner) -> Inner {
        node.fold_children(self)
    }
}

impl Fold<Option<String>> for Plain {
    fn fold(&mut self, node: Option<String>) -> Option<String> {
        node.fold_children(self)
    }
}

impl Fold<Pick> for Plain {
    fn fold(&mut self, node: Pick) -> Pick {
        node.fold_children(self)
    }
}

impl Fold<Vec<Elem>> for Plain {
    fn fold(&mut self, node: Vec<Elem>) -> Vec<Elem> {
        node.fold_children(self)
    }
}

// Appends the number of texts folded before.
struct Number {
    next: usize,
}

impl Fold<String> for Number {
    fn fold(&mut self, node: String) -> String {
        let r = format!("{}{}", node, self.next);
        self.next += 1;
        r
    }
}

impl Fold<Vec<String>> for Number {
    fn fold(&mut self, node: Vec<String>) -> Vec<String> {
        node.fold_children(self)
    }
}

// Appends a fixed mark.
struct Mark(&'static str);

impl Fold<String> for Mark {
    fn fold(&mut self, node: String) -> String {
        format!("{}{}", node, self.0)
    }
}

impl Fold<Vec<String>> for Mark {
    fn fold(&mut self, node: Vec<String>) -> Vec<String> {
        node.fold_children(self)
    }
}

// Counts the texts it observes.
struct LeafCount {
    n: usize,
}

impl Visit<String> for LeafCount {
    fn visit(&mut self, _node: &String) {
        self.n += 1;
    }
}

impl Visit<DefaultAtom> for LeafCount {
    fn visit(&mut self, node: &DefaultAtom) {
        node.visit_children(self)
    }
}

impl Visit<Elem> for LeafCount {
    fn visit(&mut self, node: &Elem) {
        node.visit_children(self)
    }
}

impl Visit<Inner> for LeafCount {
    fn visit(&mut self, node: &Inner) {
        node.visit_children(self)
    }
}

impl Visit<Option<String>> for LeafCount {
    fn visit(&mut self, node: &Option<String>) {
        node.visit_children(self)
    }
}

impl Visit<Pick> for LeafCount {
    fn visit(&mut self, node: &Pick) {
        node.visit_children(self)
    }
}

impl Visit<Vec<Elem>> for LeafCount {
    fn visit(&mut self, node: &Vec<Elem>) {
        node.visit_children(self)
    }
}

impl Visit<Vec<String>> for LeafCount {
    fn visit(&mut self, node: &Vec<String>) {
        node.visit_children(self)
    }
}

// Records the texts it observes, in order.
struct Recorder {
    seen: Vec<String>,
}

impl Visit<String> for Recorder {
    fn visit(&mut self, node: &String) {
        self.seen.push(node.clone());
    }
}

impl Visit<Vec<String>> for Recorder {
    fn visit(&mut self, node: &Vec<String>) {
        node.visit_children(self)
    }
}

impl Visit<Elem> for Recorder {
    fn visit(&mut self, node: &Elem) {
        node.visit_children(self)
    }
}

impl Visit<Inner> for Recorder {
    fn visit(&mut self, node: &Inner) {
        node.visit_children(self)
    }
}

impl Visit<Option<String>> for Recorder {
    fn visit(&mut self, node: &Option<String>) {
        node.visit_children(self)
    }
}

impl Visit<Pick> for Recorder {
    fn visit(&mut self, node: &Pick) {
        node.visit_children(self)
    }
}

impl Visit<Vec<Elem>> for Recorder {
    fn visit(&mut self, node: &Vec<Elem>) {
        node.visit_children(self)
    }
}

#[test]
fn transform_uppercases_scenario() {
    let mut f = Upper { seen: 0 };
    let out = f.fold(scenario());
    let expected = vec![plain_leaf("A"), optional(Some("B")), first_of_two("C")];
    assert_eq!(out, expected);
    assert_eq!(f.seen, 3);
}

#[test]
fn observe_counts_three_leaves() {
    let mut v = LeafCount { n: 0 };
    let tree = scenario();
    v.visit(&tree);
    assert_eq!(v.n, 3);
    assert_eq!(tree, scenario());
}

#[test]
fn plain_folder_returns_input() {
    let tree = vec![
        plain_leaf("x"),
        optional(None),
        optional(Some("y")),
        first_of_two("z"),
        second_of_two("w"),
    ];
    let mut f = Plain;
    assert_eq!(f.fold(tree.clone()), tree);
}

#[test]
fn plain_folder_on_empty_sequence() {
    let mut f = Plain;
    let out: Vec<Elem> = f.fold(Vec::new());
    assert!(out.is_empty());
}

#[test]
fn visit_sequence_in_order() {
    let mut r = Recorder { seen: Vec::new() };
    r.visit(&strings(&["a", "b", "c"]));
    assert_eq!(r.seen, strings(&["a", "b", "c"]));
}

#[test]
fn fold_sequence_keeps_order() {
    let mut f = Number { next: 0 };
    let out = f.fold(strings(&["a", "b", "c"]));
    assert_eq!(out, strings(&["a0", "b1", "c2"]));
    assert_eq!(f.next, 3);
}

#[test]
fn and_then_folds_second_on_first_result() {
    let mut both = Fold::<String>::and_then(Number { next: 0 }, Mark("!"));
    let out = both.fold(strings(&["a", "b"]));
    assert_eq!(out, strings(&["a0!", "b1!"]));
    assert_eq!(both.first.next, 2);

    let mut n = Number { next: 0 };
    let mut m = Mark("!");
    let by_hand = m.fold(n.fold(strings(&["a", "b"])));
    assert_eq!(by_hand, out);
}

#[test]
fn and_then_order_matters() {
    let mut a = Fold::<String>::and_then(Upper { seen: 0 }, Mark("x"));
    let mut b = Fold::<String>::and_then(Mark("x"), Upper { seen: 0 });
    assert_eq!(a.fold("q".to_string()), "Qx");
    assert_eq!(b.fold("q".to_string()), "QX");
}

#[test]
fn and_then_associative() {
    let mut left: AndThen<AndThen<Number, Mark>, Upper> = Fold::<String>::and_then(
        Fold::<String>::and_then(Number { next: 5 }, Mark("-m")),
        Upper { seen: 0 },
    );
    let mut right: AndThen<Number, AndThen<Mark, Upper>> = Fold::<String>::and_then(
        Number { next: 5 },
        Fold::<String>::and_then(Mark("-m"), Upper { seen: 0 }),
    );
    let l = left.fold("a".to_string());
    let r = right.fold("a".to_string());
    assert_eq!(l, "A5-M");
    assert_eq!(l, r);
    assert_eq!(left.first.first.next, right.first.next);
    assert_eq!(left.second.seen, right.second.second.seen);
}

#[test]
fn and_then_visits_same_node() {
    let mut both = Visit::<String>::and_then(LeafCount { n: 0 }, Recorder { seen: Vec::new() });
    let items = strings(&["p", "q"]);
    both.visit(&items);
    assert_eq!(both.first.n, 2);
    assert_eq!(both.second.seen, items);

    let mut twice = Visit::<String>::and_then(Recorder { seen: Vec::new() }, Recorder { seen: Vec::new() });
    twice.visit(&"r".to_string());
    assert_eq!(twice.first.seen, strings(&["r"]));
    assert_eq!(twice.second.seen, strings(&["r"]));
}

#[test]
fn option_none_stays_none() {
    let mut f = Upper { seen: 0 };
    let out: Option<String> = f.fold(None);
    assert_eq!(out, None);
    assert_eq!(f.seen, 0);
}

#[test]
fn option_some_is_folded() {
    let mut f = Upper { seen: 0 };
    let out = f.fold(Some(text("s")));
    assert_eq!(out, Some(text("S")));
    assert_eq!(f.seen, 1);
}

#[test]
fn either_keeps_left() {
    let mut f = Upper { seen: 0 };
    let out = f.fold(Pick::Left(text("l")));
    assert_eq!(out, Pick::Left(text("L")));
}

#[test]
fn either_keeps_right() {
    let mut f = Upper { seen: 0 };
    let out = f.fold(Pick::Right(text("r")));
    assert_eq!(out, Pick::Right(text("R")));
}

#[test]
fn string_leaf_unchanged_by_structure() {
    let mut f = Upper { seen: 0 };
    let out = "mixed Case".to_string().fold_children(&mut f);
    assert_eq!(out, "mixed Case");
    assert_eq!(f.seen, 0);

    let mut p = Plain;
    assert_eq!(p.fold("kept".to_string()), "kept");
}

#[test]
fn leaf_children_are_not_visited() {
    let mut v = LeafCount { n: 0 };
    "text".to_string().visit_children(&mut v);
    assert_eq!(v.n, 0);
    v.visit(&DefaultAtom::from("sym"));
    assert_eq!(v.n, 0);
}

#[test]
fn atom_unchanged() {
    let mut p = Plain;
    let a = DefaultAtom::from("interned");
    assert_eq!(p.fold(a.clone()), a);
}

#[test]
fn box_fold_rewraps() {
    let mut f = Upper { seen: 0 };
    let out = f.fold(Box::new(Some(text("in"))));
    assert_eq!(out, Box::new(Some(text("IN"))));
    assert_eq!(f.seen, 1);
}

#[test]
fn boxed_folder_forwards() {
    let mut boxed = Box::new(Number { next: 7 });
    let out = boxed.fold(strings(&["a", "b"]));
    assert_eq!(out, strings(&["a7", "b8"]));
    assert_eq!(boxed.next, 9);
}

#[test]
fn borrowed_folder_forwards() {
    let mut n = Number { next: 1 };
    {
        let mut borrowed: &mut Number = &mut n;
        let out = Fold::<String>::fold(&mut borrowed, "z".to_string());
        assert_eq!(out, "z1");
    }
    assert_eq!(n.next, 2);
}

#[test]
fn boxed_observer_forwards() {
    let mut boxed = Box::new(Recorder { seen: Vec::new() });
    boxed.visit(&strings(&["u", "v"]));
    assert_eq!(boxed.seen, strings(&["u", "v"]));
}

#[test]
fn observe_scenario_in_order() {
    let mut r = Recorder { seen: Vec::new() };
    let mut tree = scenario();
    tree.push(optional(None));
    tree.push(second_of_two("d"));
    r.visit(&tree);
    assert_eq!(r.seen, strings(&["a", "b", "c", "d"]));
}
