use vstd::prelude::*;

verus! {

/// The mathematical value of an item: its group, whether it is a separator,
/// and its text.
pub struct ItemView {
    pub group: nat,
    pub persist: bool,
    pub text: Seq<char>,
}

/// One candidate line of the selection, or a synthetic separator between
/// the items of two sources.
pub struct CustomItem {
    /// Group of the item: items of a lower group rank first.
    pub group: u16,
    /// True only for separators, which match every query.
    pub persist: bool,
    /// The text shown and matched.
    pub inner: String,
}

impl View for CustomItem {
    type V = ItemView;

    open spec fn view(&self) -> ItemView {
        ItemView { group: self.group as nat, persist: self.persist, text: self.inner@ }
    }
}

/// The item made of one line of a source whose group is `group`.
pub open spec fn line_view(group: nat, text: Seq<char>) -> ItemView {
    ItemView { group, persist: false, text }
}

/// The separator that closes a source whose group is `group`.
pub open spec fn separator_view(group: nat, text: Seq<char>) -> ItemView {
    ItemView { group, persist: true, text }
}

impl CustomItem {
    /// An item for one line of a source.
    pub fn line(group: u16, text: String) -> (r: CustomItem)
        ensures
            r@ == line_view(group as nat, text@),
    {
        CustomItem { group, persist: false, inner: text }
    }

    /// A separator item with the given group and display text.
    pub fn separator(group: u16, text: String) -> (r: CustomItem)
        ensures
            r@ == separator_view(group as nat, text@),
    {
        CustomItem { group, persist: true, inner: text }
    }

    /// Whether this item is a separator.
    pub fn is_separator(&self) -> (r: bool)
        ensures
            r == self.persist,
    {
        self.persist
    }

    /// The text of the item.
    pub fn text(&self) -> (r: &str)
        ensures
            r@ == self.inner@,
    {
        self.inner.as_str()
    }
}

} // verus!
