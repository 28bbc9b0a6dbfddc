use nova_core::drm::file::{File, GemCreate, GemInfo, GetParam, NOVA_GETPARAM_VRAM_BAR_SIZE};
use nova_core::error::Error;
use nova_core::iface::{nova_core_vram_bar_size, Device, NovaCore};

#[test]
fn bar_size() {
    let device = Device { drvdata: Some(NovaCore { vram_bar_size: 0x1000_0000 }) };
    assert_eq!(nova_core_vram_bar_size(Some(&device)), 0x1000_0000);
    assert_eq!(nova_core_vram_bar_size(Some(&Device { drvdata: None })), 0);
    assert_eq!(nova_core_vram_bar_size(None), 0);
}

#[test]
fn parameters() {
    let device = Device { drvdata: Some(NovaCore { vram_bar_size: 77 }) };
    let mut req = GetParam { param: NOVA_GETPARAM_VRAM_BAR_SIZE, value: 5 };
    assert_eq!(File::get_param(Some(&device), &mut req), Ok(0));
    assert_eq!(req.value, 77);
    assert_eq!(File::get_param(None, &mut req), Ok(0));
    assert_eq!(req.value, 0);
    let mut req = GetParam { param: 2, value: 5 };
    assert_eq!(File::get_param(Some(&device), &mut req), Err(Error::EINVAL));
    assert_eq!(req, GetParam { param: 2, value: 5 });
}

#[test]
fn buffer_objects() {
    let mut create = GemCreate { handle: 0, size: 0x3000 };
    assert_eq!(File::object_size(&create), Ok(0x3000));
    assert_eq!(File::gem_create(&mut create, 12), Ok(0));
    assert_eq!(create, GemCreate { handle: 12, size: 0x3000 });
    let mut info = GemInfo { handle: 12, size: 0 };
    assert_eq!(File::gem_info(&mut info, 0x4000), Ok(0));
    assert_eq!(info, GemInfo { handle: 12, size: 0x4000 });
}
