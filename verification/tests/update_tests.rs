use osu_ipc::update::{update_decision, Release, UpdateStatus};

fn release_with_tag(tag: &str) -> Release {
    Release { tag_name: tag.to_string(), ..Default::default() }
}

#[test]
fn newer_tag_offers_an_update() {
    let release = release_with_tag("1.2.3");
    assert_eq!(update_decision(&release, "1.0.0"), UpdateStatus::UpdateAvailable);
}

#[test]
fn equal_tag_is_up_to_date() {
    let release = release_with_tag("1.0.0");
    assert_eq!(update_decision(&release, "1.0.0"), UpdateStatus::UpToDate);
}

#[test]
fn older_tag_is_up_to_date() {
    let release = release_with_tag("0.9.1");
    assert_eq!(update_decision(&release, "1.0.0"), UpdateStatus::UpToDate);
}

#[test]
fn patch_bump_offers_an_update() {
    let release = release_with_tag("1.0.1");
    assert_eq!(update_decision(&release, "1.0.0"), UpdateStatus::UpdateAvailable);
}
