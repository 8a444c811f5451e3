//! The parsed form of source files, as far as the driver reads it.
use vstd::prelude::*;

verus! {

/// A declaration that names a module whose body stands in another file.
#[derive(Clone, Debug, PartialEq, Eq)]
pub struct ExternalModule {
    pub name: String,
}

/// One item of a module. The driver reads nested modules and declarations of
/// external modules; every other item is carried through as it is.
#[derive(Debug, PartialEq, Eq)]
pub enum ModuleDefItem<T> {
    Module(Module<T>),
    ExternalModule(ExternalModule),
    Other(T),
}

/// A named scope and its items, in order.
#[derive(Debug, PartialEq, Eq)]
pub struct Module<T> {
    pub name: String,
    pub contents: Vec<ModuleDefItem<T>>,
}

/// The parsed form of one source file: its top-level modules, in order.
#[derive(Debug, PartialEq, Eq)]
pub struct CompilationUnit<T> {
    pub modules: Vec<Module<T>>,
}

/// The mathematical value of a [`ModuleDefItem`].
pub enum ItemView<T> {
    Module(ModuleView<T>),
    ExternalModule(Seq<char>),
    Other(T),
}

/// The mathematical value of a [`Module`]: its name and the values of its
/// items, in order.
pub struct ModuleView<T> {
    pub name: Seq<char>,
    pub contents: Seq<ItemView<T>>,
}

/// The view of one item.
pub open spec fn item_view<T>(item: ModuleDefItem<T>) -> ItemView<T>
    decreases item,
{
    match item {
        ModuleDefItem::Module(module) => ItemView::Module(module_view(module)),
        ModuleDefItem::ExternalModule(decl) => ItemView::ExternalModule(decl.name@),
        ModuleDefItem::Other(other) => ItemView::Other(other),
    }
}

/// The views of `items`, in order.
pub open spec fn items_view<T>(items: Seq<ModuleDefItem<T>>) -> Seq<ItemView<T>>
    decreases items,
{
    if items.len() == 0 {
        Seq::empty()
    } else {
        items_view(items.drop_last()).push(item_view(items.last()))
    }
}

/// The view of one module.
pub open spec fn module_view<T>(module: Module<T>) -> ModuleView<T>
    decreases module,
{
    ModuleView { name: module.name@, contents: items_view(module.contents@) }
}

impl<T> View for ModuleDefItem<T> {
    type V = ItemView<T>;

    open spec fn view(&self) -> ItemView<T> {
        item_view(*self)
    }
}

impl<T> View for Module<T> {
    type V = ModuleView<T>;

    open spec fn view(&self) -> ModuleView<T> {
        module_view(*self)
    }
}

impl<T> View for CompilationUnit<T> {
    type V = Seq<ModuleView<T>>;

    open spec fn view(&self) -> Seq<ModuleView<T>> {
        Seq::new(self.modules@.len(), |i: int| self.modules@[i]@)
    }
}

/// The views of items, one for one.
pub proof fn lemma_items_view<T>(items: Seq<ModuleDefItem<T>>)
    ensures
        items_view(items).len() == items.len(),
        forall|i: int| 0 <= i < items.len() ==> items_view(items)[i] == item_view(#[trigger] items[i]),
    decreases items.len(),
{
    if items.len() > 0 {
        lemma_items_view(items.drop_last());
        assert forall|i: int| 0 <= i < items.len() implies items_view(items)[i] == item_view(
            #[trigger] items[i],
        ) by {
            if i < items.len() - 1 {
                assert(items.drop_last()[i] == items[i]);
            }
        }
    }
}

/// The view of a module, spelled out: its name, and the views of its items
/// in order.
pub proof fn lemma_module_view<T>(module: Module<T>)
    ensures
        module@.name == module.name@,
        module@.contents.len() == module.contents@.len(),
        forall|i: int|
            0 <= i < module.contents@.len() ==> module@.contents[i] == (#[trigger] module.contents@[i])@,
{
    lemma_items_view(module.contents@);
}

} // verus!
