use mempalace_core::disk_size_manager::DiskSizeManager;

#[test]
fn test_apply_delta_positive() {
    let mut manager = DiskSizeManager::new(1000);
    let result = manager.apply_delta(500);
    assert!(result.success);
    assert_eq!(result.current_total, 500);
}

#[test]
fn test_apply_delta_negative() {
    let mut manager = DiskSizeManager::new(1000);
    manager.apply_delta(500);
    let result = manager.apply_delta(-200);
    assert_eq!(result.current_total, 300);
}

#[test]
fn test_apply_delta_below_zero() {
    let mut manager = DiskSizeManager::new(1000);
    let result = manager.apply_delta(-500);
    assert_eq!(result.current_total, 0);
}

#[test]
fn test_is_over_quota() {
    let mut manager = DiskSizeManager::new(100);
    manager.apply_delta(200);
    assert!(manager.is_over_quota());
}

#[test]
fn test_is_under_quota() {
    let mut manager = DiskSizeManager::new(1000);
    manager.apply_delta(500);
    assert!(!manager.is_over_quota());
}

#[test]
fn test_remaining_bytes() {
    let mut manager = DiskSizeManager::new(1000);
    manager.apply_delta(300);
    assert_eq!(manager.remaining_bytes(), 700);
}

#[test]
fn test_remaining_bytes_negative() {
    let mut manager = DiskSizeManager::new(100);
    manager.apply_delta(200);
    assert_eq!(manager.remaining_bytes(), 0);
}
