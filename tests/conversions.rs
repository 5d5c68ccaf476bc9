#[test]
fn test_lamports_to_sol() {
    let lamports: u64 = 50_000_000;
    let sol = lamports as f64 / 1_000_000_000.0;
    assert_eq!(sol, 0.05);
}

#[test]
fn test_balance_conversion() {
    let lamports: u64 = 1_000_000_000;
    let sol = lamports as f64 / 1_000_000_000.0;
    assert_eq!(sol, 1.0);

    let lamports: u64 = 500_000_000;
    let sol = lamports as f64 / 1_000_000_000.0;
    assert_eq!(sol, 0.5);
}
