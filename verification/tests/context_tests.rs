use emblem::context::{Context, ResourceLimit, SandboxLevel, Version};

#[test]
fn alloc_file() {
    let mut ctx = Context::new();
    let name = "/usr/share/man/man1/gcc.1.gz".to_owned();
    let content = "hello, world".to_owned();

    let file = ctx.alloc_file(name.clone(), content.clone());
    assert_eq!(file.name(), name);
    assert_eq!(file.content(), content);
}

#[test]
fn doc_info_round_trip() {
    let mut ctx = Context::new();
    assert_eq!(ctx.doc_info().name(), None);
    ctx.doc_info_mut().set_name("my doc".to_owned());
    assert_eq!(ctx.doc_info().name(), Some("my doc"));
    ctx.doc_info_mut().set_emblem_version(Version::new(1, 2));
    assert_eq!(ctx.doc_info().emblem_version(), &Some(Version::new(1, 2)));
    ctx.doc_info_mut().set_authors(vec!["ada".to_owned()]);
    assert_eq!(ctx.doc_info().authors(), &Some(vec!["ada".to_owned()]));
    ctx.doc_info_mut().set_keywords(vec!["markup".to_owned()]);
    assert_eq!(ctx.doc_info().keywords(), &Some(vec!["markup".to_owned()]));
}

#[test]
fn lua_info_round_trip() {
    let mut ctx = Context::new();
    assert_eq!(ctx.lua_info().sandbox(), SandboxLevel::Standard);
    ctx.lua_info_mut().set_sandbox(SandboxLevel::Strict);
    assert_eq!(ctx.lua_info().sandbox(), SandboxLevel::Strict);
    ctx.lua_info_mut().set_max_mem(ResourceLimit::Limited(4096));
    assert_eq!(ctx.lua_info().max_mem(), ResourceLimit::Limited(4096));
}

#[test]
fn resource_limits_as_counts() {
    assert_eq!(ResourceLimit::<usize>::Unlimited.into_usize(), usize::MAX);
    assert_eq!(ResourceLimit::Limited(17usize).into_usize(), 17);
    assert_eq!(ResourceLimit::<u32>::Unlimited.into_u32(), u32::MAX);
    assert_eq!(ResourceLimit::Limited(9u32).into_u32(), 9);
}

#[test]
fn input_levels() {
    let levels: Vec<SandboxLevel> = SandboxLevel::input_levels();
    assert_eq!(
        levels,
        vec![
            SandboxLevel::Unrestricted,
            SandboxLevel::Standard,
            SandboxLevel::Strict,
        ]
    );
}
