use htop_win::app::{SortColumn, UIAction, UIElement};
use htop_win::mouse::{classify_left_click, click_action, ClickAction};

#[test]
fn second_click_on_the_same_cell_in_time_is_a_double_click() {
    assert_eq!(classify_left_click(None, (3, 4), 500), (UIAction::Click, true));
    assert_eq!(classify_left_click(Some(((3, 4), 120)), (3, 4), 500), (UIAction::DoubleClick, false));
    assert_eq!(classify_left_click(Some(((3, 4), 500)), (3, 4), 500), (UIAction::Click, true));
    assert_eq!(classify_left_click(Some(((3, 5), 10)), (3, 4), 500), (UIAction::Click, true));
}

fn act(element: UIElement, action: UIAction, tree: bool) -> ClickAction {
    click_action(Some(element), action, SortColumn::Cpu, tree, 10, &[5, 6, 7, 8, 9, 10, 11, 12, 13, 14, 15, 16])
}

#[test]
fn meters_and_headers_react_to_clicks() {
    assert_eq!(act(UIElement::CpuMeter(None), UIAction::Click, false), ClickAction::CycleCpuMeter);
    assert_eq!(act(UIElement::SwapMeter, UIAction::Click, false), ClickAction::CycleMemoryMeter);
    assert_eq!(act(UIElement::MemoryMeter, UIAction::RightClick, false), ClickAction::Nothing);
    assert_eq!(act(UIElement::ColumnHeader(SortColumn::Cpu), UIAction::Click, false), ClickAction::ReverseSort);
    assert_eq!(
        act(UIElement::ColumnHeader(SortColumn::Mem), UIAction::Click, false),
        ClickAction::SortBy(SortColumn::Mem)
    );
    assert_eq!(act(UIElement::Header, UIAction::DoubleClick, false), ClickAction::ToggleHeader);
    assert_eq!(act(UIElement::Footer, UIAction::DoubleClick, false), ClickAction::OpenSetup);
    assert_eq!(act(UIElement::FunctionKey(9), UIAction::Click, false), ClickAction::FunctionKey(9));
    assert_eq!(act(UIElement::GpuMeter, UIAction::Click, false), ClickAction::Nothing);
}

#[test]
fn process_rows_map_through_the_scroll_offset() {
    let row = |index| UIElement::ProcessRow { index, pid: 0 };
    assert_eq!(act(row(1), UIAction::Click, false), ClickAction::Select(11));
    assert_eq!(act(row(1), UIAction::DoubleClick, false), ClickAction::SelectAndOpenInfo(11));
    assert_eq!(act(row(1), UIAction::DoubleClick, true), ClickAction::SelectAndTagBranch(11, 16));
    assert_eq!(act(row(0), UIAction::RightClick, false), ClickAction::SelectAndToggleTag(10, 15));
    assert_eq!(act(row(0), UIAction::MiddleClick, false), ClickAction::SelectAndKill(10));
    assert_eq!(act(row(2), UIAction::Click, false), ClickAction::Nothing);
    assert_eq!(
        click_action(None, UIAction::Click, SortColumn::Cpu, false, 0, &[1]),
        ClickAction::Nothing
    );
}
