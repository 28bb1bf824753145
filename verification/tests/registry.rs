use sdrtop::ui::registry::{Panel, PanelRegistry};

struct NamedPanel(&'static str);

impl Panel for NamedPanel {
    fn name(&self) -> &'static str {
        self.0
    }
    fn min_size(&self) -> (u16, u16) {
        (0, 0)
    }
}

#[test]
fn register_and_retrieve() {
    let mut reg = PanelRegistry::new();
    reg.register(NamedPanel("alpha"));
    reg.register(NamedPanel("beta"));
    assert!(reg.get("alpha").is_some());
    assert!(reg.get("beta").is_some());
    assert!(reg.get("gamma").is_none());
}

#[test]
fn a_second_panel_under_one_name_replaces_the_first() {
    struct Sized(&'static str, u16);
    impl Panel for Sized {
        fn name(&self) -> &'static str {
            self.0
        }
        fn min_size(&self) -> (u16, u16) {
            (self.1, self.1)
        }
    }
    let mut reg = PanelRegistry::new();
    reg.register(Sized("alpha", 1));
    reg.register(Sized("alpha", 2));
    assert_eq!(reg.panels_iter().len(), 1);
    assert_eq!(reg.get("alpha").map(|p| p.min_size()), Some((2, 2)));
}
