use bet_architecture::trading_dag::TradingWorkflow;

#[test]
fn test_trading_workflow_new() {
    let workflow = TradingWorkflow::new();
    assert!(workflow.get_execution_order().is_ok());
}

#[test]
fn test_trading_workflow_execution_order() {
    let workflow = TradingWorkflow::new();
    let order = workflow.get_execution_order().unwrap();

    assert!(order.len() > 0);
    assert!(order.contains(&"fetch_data".to_string()));
    assert!(order.contains(&"execute_trades".to_string()));
}

#[test]
fn test_trading_workflow_correct_sequence() {
    let workflow = TradingWorkflow::new();
    let order = workflow.get_execution_order().unwrap();

    let fetch_idx = order.iter().position(|x| x == "fetch_data");
    let calc_idx = order.iter().position(|x| x == "calculate_indicators");
    let signal_idx = order.iter().position(|x| x == "generate_signals");
    let risk_idx = order.iter().position(|x| x == "risk_check");
    let exec_idx = order.iter().position(|x| x == "execute_trades");

    assert!(fetch_idx.is_some());
    assert!(calc_idx.is_some());
    assert!(signal_idx.is_some());
    assert!(risk_idx.is_some());
    assert!(exec_idx.is_some());

    let fetch_idx = fetch_idx.unwrap();
    let calc_idx = calc_idx.unwrap();
    let signal_idx = signal_idx.unwrap();
    let risk_idx = risk_idx.unwrap();
    let exec_idx = exec_idx.unwrap();

    assert!(fetch_idx < calc_idx, "fetch_data must come before calculate_indicators");
    assert!(calc_idx < signal_idx, "calculate_indicators must come before generate_signals");
    assert!(signal_idx < risk_idx, "generate_signals must come before risk_check");
    assert!(risk_idx < exec_idx, "risk_check must come before execute_trades");
}

#[test]
fn test_trading_workflow_display() {
    let workflow = TradingWorkflow::new();
    let display = workflow.display();
    assert!(display.contains("5 tasks"));
}

#[test]
fn test_trading_workflow_dag_integration() {
    let workflow = TradingWorkflow::new();

    let order = workflow.get_execution_order().expect("Should get execution order");

    assert_eq!(order.len(), 5);
    assert_eq!(order[0], "fetch_data");
    assert_eq!(order[1], "calculate_indicators");
    assert_eq!(order[2], "generate_signals");
    assert_eq!(order[3], "risk_check");
    assert_eq!(order[4], "execute_trades");

    let display = workflow.display();
    assert!(display.contains("OCTOTREÉ"));
    assert!(display.contains("5 tasks"));
}

#[test]
fn workflow_display_is_exact() {
    assert_eq!(TradingWorkflow::new().display(), "OCTOTREÉ: 5 tasks");
}
