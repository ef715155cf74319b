use catalogo_avl::{
    actualizar_altura, balancear, buscar, calcular_estadisticas, eliminar, extraer_minimo,
    insertar, lineas_de_impresion, obtener_altura, obtener_balance, rotar_derecha,
    rotar_izquierda, Estadisticas, Libro, Nodo,
};

fn libro(isbn: u32, titulo: &str) -> Libro {
    Libro { isbn, titulo: titulo.to_string() }
}

fn datos() -> Vec<(u32, &'static str)> {
    vec![
        (10, "El Quijote"),
        (20, "1984"),
        (30, "Hamlet"),
        (5, "Fahrenheit 451"),
        (2, "La Odisea"),
        (25, "El Principito"),
    ]
}

fn construir(lista: &[(u32, &str)]) -> Option<Box<Nodo>> {
    let mut raiz: Option<Box<Nodo>> = None;
    for (isbn, titulo) in lista {
        raiz = Some(insertar(raiz.take(), libro(*isbn, titulo)));
    }
    raiz
}

/// Forma del árbol como texto: `isbn(izq,der)`, `-` para un subárbol vacío.
fn forma(t: &Option<Box<Nodo>>) -> String {
    match t {
        None => "-".to_string(),
        Some(n) => {
            if n.izquierdo.is_none() && n.derecho.is_none() {
                format!("{}", n.libro.isbn)
            } else {
                format!("{}({},{})", n.libro.isbn, forma(&n.izquierdo), forma(&n.derecho))
            }
        }
    }
}

fn en_orden(t: &Option<Box<Nodo>>, salida: &mut Vec<(u32, String)>) {
    if let Some(n) = t {
        en_orden(&n.izquierdo, salida);
        salida.push((n.libro.isbn, n.libro.titulo.clone()));
        en_orden(&n.derecho, salida);
    }
}

fn contenido(t: &Option<Box<Nodo>>) -> Vec<(u32, String)> {
    let mut v = Vec::new();
    en_orden(t, &mut v);
    v
}

/// Altura verdadera, calculada sin mirar las guardadas.
fn altura(t: &Option<Box<Nodo>>) -> i32 {
    match t {
        None => 0,
        Some(n) => 1 + std::cmp::max(altura(&n.izquierdo), altura(&n.derecho)),
    }
}

/// Comprueba orden, alturas guardadas y balance de todo el árbol.
fn es_avl(t: &Option<Box<Nodo>>) -> bool {
    let v = contenido(t);
    let ordenado = v.windows(2).all(|w| w[0].0 < w[1].0);
    fn bien(t: &Option<Box<Nodo>>) -> bool {
        match t {
            None => true,
            Some(n) => {
                let hi = altura(&n.izquierdo);
                let hd = altura(&n.derecho);
                n.altura == 1 + std::cmp::max(hi, hd)
                    && (hi - hd).abs() <= 1
                    && bien(&n.izquierdo)
                    && bien(&n.derecho)
            }
        }
    }
    ordenado && bien(t)
}

fn stats_vacias() -> Estadisticas {
    Estadisticas {
        total_nodos: 0,
        altura_total: 0,
        isbn_mas_alto: None,
        titulo_isbn_mas_alto: None,
    }
}

fn hoja(isbn: u32) -> Box<Nodo> {
    Box::new(Nodo::nuevo(libro(isbn, "x")))
}

#[test]
fn nuevo_es_hoja_de_altura_uno() {
    let n = Nodo::nuevo(libro(7, "Siete"));
    assert_eq!(n.libro.isbn, 7);
    assert_eq!(n.libro.titulo, "Siete");
    assert!(n.izquierdo.is_none());
    assert!(n.derecho.is_none());
    assert_eq!(n.altura, 1);
}

#[test]
fn altura_de_vacio_y_de_nodo() {
    assert_eq!(obtener_altura(&None), 0);
    let mut n = Nodo::nuevo(libro(1, "a"));
    n.altura = 5;
    assert_eq!(obtener_altura(&Some(Box::new(n))), 5);
}

#[test]
fn actualizar_altura_toma_el_hijo_mas_alto() {
    let mut n = Nodo::nuevo(libro(10, "a"));
    let mut izq = Nodo::nuevo(libro(5, "b"));
    izq.altura = 3;
    n.izquierdo = Some(Box::new(izq));
    n.derecho = Some(hoja(20));
    n.altura = 99;
    actualizar_altura(&mut n);
    assert_eq!(n.altura, 4);
    assert_eq!(n.libro.isbn, 10);
}

#[test]
fn balance_es_izquierda_menos_derecha() {
    let mut n = Nodo::nuevo(libro(10, "a"));
    let mut izq = Nodo::nuevo(libro(5, "b"));
    izq.altura = 3;
    n.izquierdo = Some(Box::new(izq));
    assert_eq!(obtener_balance(&n), 3);
    n.derecho = Some(hoja(20));
    assert_eq!(obtener_balance(&n), 2);
    let n2 = Nodo::nuevo(libro(1, "c"));
    assert_eq!(obtener_balance(&n2), 0);
}

#[test]
fn rotacion_derecha_sube_el_hijo_izquierdo() {
    // 30(20(10,-),-) -> 20(10,30)
    let mut x = Nodo::nuevo(libro(20, "b"));
    x.izquierdo = Some(hoja(10));
    x.altura = 2;
    let mut y = Nodo::nuevo(libro(30, "c"));
    y.izquierdo = Some(Box::new(x));
    y.altura = 3;
    let r = rotar_derecha(Box::new(y));
    let t = Some(r);
    assert_eq!(forma(&t), "20(10,30)");
    let r = t.unwrap();
    assert_eq!(r.altura, 2);
    assert_eq!(r.derecho.as_ref().unwrap().altura, 1);
}

#[test]
fn rotacion_izquierda_sube_el_hijo_derecho() {
    // 10(-,20(15,30)) -> 20(10(-,15),30)
    let mut y = Nodo::nuevo(libro(20, "b"));
    y.izquierdo = Some(hoja(15));
    y.derecho = Some(hoja(30));
    y.altura = 2;
    let mut x = Nodo::nuevo(libro(10, "a"));
    x.derecho = Some(Box::new(y));
    x.altura = 3;
    let r = rotar_izquierda(Box::new(x));
    assert_eq!(r.altura, 3);
    assert_eq!(r.izquierdo.as_ref().unwrap().altura, 2);
    assert_eq!(forma(&Some(r)), "20(10(-,15),30)");
}

#[test]
fn balancear_rotacion_doble() {
    // 30(10(-,20),-): factor 2 con hijo izquierdo de factor -1
    let mut x = Nodo::nuevo(libro(10, "a"));
    x.derecho = Some(hoja(20));
    x.altura = 2;
    let mut y = Nodo::nuevo(libro(30, "c"));
    y.izquierdo = Some(Box::new(x));
    y.altura = 3;
    let r = Some(balancear(Box::new(y)));
    assert_eq!(forma(&r), "20(10,30)");
    assert!(es_avl(&r));
}

#[test]
fn balancear_deja_igual_un_nodo_equilibrado() {
    let mut n = Nodo::nuevo(libro(10, "a"));
    n.izquierdo = Some(hoja(5));
    n.altura = 2;
    let r = Some(balancear(Box::new(n)));
    assert_eq!(forma(&r), "10(5,-)");
    assert_eq!(r.unwrap().altura, 2);
}

#[test]
fn insercion_de_la_secuencia_del_catalogo() {
    let raiz = construir(&datos());
    assert_eq!(forma(&raiz), "20(5(2,10),30(25,-))");
    assert!(es_avl(&raiz));
    assert_eq!(obtener_altura(&raiz), 3);
}

#[test]
fn insercion_paso_a_paso() {
    let mut raiz = construir(&[(10, "a"), (20, "b")]);
    assert_eq!(forma(&raiz), "10(-,20)");
    raiz = Some(insertar(raiz.take(), libro(30, "c")));
    assert_eq!(forma(&raiz), "20(10,30)");
    raiz = Some(insertar(raiz.take(), libro(5, "d")));
    assert_eq!(forma(&raiz), "20(10(5,-),30)");
    raiz = Some(insertar(raiz.take(), libro(2, "e")));
    assert_eq!(forma(&raiz), "20(5(2,10),30)");
    raiz = Some(insertar(raiz.take(), libro(25, "f")));
    assert_eq!(forma(&raiz), "20(5(2,10),30(25,-))");
}

#[test]
fn insercion_rotacion_doble_derecha_izquierda() {
    let raiz = construir(&[(10, "a"), (30, "b"), (20, "c")]);
    assert_eq!(forma(&raiz), "20(10,30)");
    let raiz = construir(&[(30, "a"), (10, "b"), (20, "c")]);
    assert_eq!(forma(&raiz), "20(10,30)");
}

#[test]
fn insercion_en_arbol_vacio() {
    let r = insertar(None, libro(42, "Solo"));
    assert_eq!(r.libro.isbn, 42);
    assert_eq!(r.altura, 1);
    assert!(r.izquierdo.is_none() && r.derecho.is_none());
}

#[test]
fn insercion_de_isbn_duplicado_no_cambia_nada() {
    let raiz = construir(&datos());
    let antes = contenido(&raiz);
    let forma_antes = forma(&raiz);
    let raiz = Some(insertar(raiz, libro(25, "Otro título")));
    assert_eq!(contenido(&raiz), antes);
    assert_eq!(forma(&raiz), forma_antes);
    assert_eq!(buscar(&raiz, 25).unwrap().titulo, "El Principito");
}

#[test]
fn buscar_existente() {
    let raiz = construir(&datos());
    let l = buscar(&raiz, 25).unwrap();
    assert_eq!(l.isbn, 25);
    assert_eq!(l.titulo, "El Principito");
    assert_eq!(buscar(&raiz, 2).unwrap().titulo, "La Odisea");
    assert_eq!(buscar(&raiz, 20).unwrap().titulo, "1984");
}

#[test]
fn buscar_inexistente() {
    let raiz = construir(&datos());
    assert!(buscar(&raiz, 99).is_none());
    assert!(buscar(&raiz, 0).is_none());
    assert!(buscar(&raiz, 21).is_none());
}

#[test]
fn buscar_en_arbol_vacio() {
    let vacio: Option<Box<Nodo>> = None;
    assert!(buscar(&vacio, 10).is_none());
}

#[test]
fn eliminar_los_tres_casos() {
    let mut raiz = construir(&datos());
    raiz = eliminar(raiz.take(), 2);
    assert_eq!(forma(&raiz), "20(5(-,10),30(25,-))");
    assert!(es_avl(&raiz));
    raiz = eliminar(raiz.take(), 5);
    assert_eq!(forma(&raiz), "20(10,30(25,-))");
    assert!(es_avl(&raiz));
    raiz = eliminar(raiz.take(), 20);
    assert_eq!(forma(&raiz), "25(10,30)");
    assert_eq!(buscar(&raiz, 25).unwrap().titulo, "El Principito");
    assert!(es_avl(&raiz));
    raiz = eliminar(raiz.take(), 999);
    assert_eq!(forma(&raiz), "25(10,30)");
}

#[test]
fn eliminar_inexistente_no_cambia_el_arbol() {
    let raiz = construir(&datos());
    let antes = contenido(&raiz);
    let forma_antes = forma(&raiz);
    let raiz = eliminar(raiz, 999);
    assert_eq!(contenido(&raiz), antes);
    assert_eq!(forma(&raiz), forma_antes);
}

#[test]
fn eliminar_de_vacio_y_ultimo_libro() {
    assert!(eliminar(None, 1).is_none());
    let raiz = construir(&[(1, "a")]);
    assert!(eliminar(raiz, 1).is_none());
}

#[test]
fn eliminar_con_rebalanceo() {
    // 20(10,30(25,40)); al quitar 10 el nodo 20 queda con factor -2.
    let mut raiz = construir(&[(20, "a"), (10, "b"), (30, "c"), (25, "d"), (40, "e")]);
    assert_eq!(forma(&raiz), "20(10,30(25,40))");
    raiz = eliminar(raiz.take(), 10);
    assert_eq!(forma(&raiz), "30(20(-,25),40)");
    assert!(es_avl(&raiz));
}

#[test]
fn extraer_minimo_devuelve_hoja_y_resto() {
    let raiz = construir(&datos()).unwrap();
    let (min, resto) = extraer_minimo(raiz);
    assert_eq!(min.libro.isbn, 2);
    assert_eq!(min.libro.titulo, "La Odisea");
    assert!(min.izquierdo.is_none() && min.derecho.is_none());
    assert_eq!(min.altura, 1);
    let isbns: Vec<u32> = contenido(&resto).into_iter().map(|p| p.0).collect();
    assert_eq!(isbns, vec![5, 10, 20, 25, 30]);
    assert!(es_avl(&resto));
}

#[test]
fn extraer_minimo_de_una_hoja() {
    let (min, resto) = extraer_minimo(hoja(8));
    assert_eq!(min.libro.isbn, 8);
    assert!(resto.is_none());
}

#[test]
fn estadisticas_del_catalogo() {
    let raiz = construir(&datos());
    let mut stats = stats_vacias();
    calcular_estadisticas(&raiz, &mut stats, 1);
    assert_eq!(stats.total_nodos, 6);
    assert_eq!(stats.altura_total, 3);
    assert_eq!(stats.isbn_mas_alto, Some(30));
    assert_eq!(stats.titulo_isbn_mas_alto, Some("Hamlet".to_string()));
}

#[test]
fn estadisticas_de_arbol_vacio() {
    let mut stats = stats_vacias();
    calcular_estadisticas(&None, &mut stats, 1);
    assert_eq!(stats.total_nodos, 0);
    assert_eq!(stats.altura_total, 0);
    assert_eq!(stats.isbn_mas_alto, None);
    assert_eq!(stats.titulo_isbn_mas_alto, None);
}

#[test]
fn estadisticas_acumulan_sobre_valores_previos() {
    let raiz = construir(&datos());
    let mut stats = Estadisticas {
        total_nodos: 4,
        altura_total: 10,
        isbn_mas_alto: Some(50),
        titulo_isbn_mas_alto: Some("Previo".to_string()),
    };
    calcular_estadisticas(&raiz, &mut stats, 1);
    assert_eq!(stats.total_nodos, 10);
    assert_eq!(stats.altura_total, 10);
    assert_eq!(stats.isbn_mas_alto, Some(50));
    assert_eq!(stats.titulo_isbn_mas_alto, Some("Previo".to_string()));

    let mut stats = Estadisticas {
        total_nodos: 0,
        altura_total: 0,
        isbn_mas_alto: Some(12),
        titulo_isbn_mas_alto: Some("Previo".to_string()),
    };
    calcular_estadisticas(&raiz, &mut stats, 5);
    assert_eq!(stats.altura_total, 7);
    assert_eq!(stats.isbn_mas_alto, Some(30));
    assert_eq!(stats.titulo_isbn_mas_alto, Some("Hamlet".to_string()));
}

#[test]
fn lineas_de_impresion_del_catalogo() {
    let raiz = construir(&datos());
    let lineas = lineas_de_impresion(&raiz, 0);
    let v: Vec<(usize, u32, String)> =
        lineas.into_iter().map(|l| (l.nivel, l.isbn, l.titulo)).collect();
    assert_eq!(
        v,
        vec![
            (1, 30, "Hamlet".to_string()),
            (2, 25, "El Principito".to_string()),
            (0, 20, "1984".to_string()),
            (2, 10, "El Quijote".to_string()),
            (1, 5, "Fahrenheit 451".to_string()),
            (2, 2, "La Odisea".to_string()),
        ]
    );
    assert!(lineas_de_impresion(&None, 3).is_empty());
}

#[test]
fn ley_buscar_tras_insertar_valores() {
    let raiz = construir(&datos());
    let raiz = Some(insertar(raiz, libro(7, "Nuevo")));
    assert_eq!(buscar(&raiz, 7).unwrap().titulo, "Nuevo");
    assert_eq!(buscar(&raiz, 10).unwrap().titulo, "El Quijote");
}

#[test]
fn ley_buscar_tras_eliminar_valores() {
    let raiz = construir(&datos());
    let raiz = eliminar(raiz, 10);
    assert!(buscar(&raiz, 10).is_none());
    assert_eq!(buscar(&raiz, 30).unwrap().titulo, "Hamlet");
}

#[test]
fn ley_eliminar_deshace_insertar_valores() {
    let raiz = construir(&datos());
    let antes = contenido(&raiz);
    let raiz = Some(insertar(raiz, libro(27, "Nuevo")));
    let raiz = eliminar(raiz, 27);
    assert_eq!(contenido(&raiz), antes);
}

#[test]
fn ley_altura_logaritmica_valores() {
    let mut raiz: Option<Box<Nodo>> = None;
    for i in 1..=1000u32 {
        raiz = Some(insertar(raiz.take(), libro(i, "t")));
    }
    assert!(es_avl(&raiz));
    let h = obtener_altura(&raiz);
    // 2^(h/2) <= 1000 + 1
    assert!(1u64 << (h / 2) <= 1001);
    assert_eq!(h, 10);
    let mut stats = stats_vacias();
    calcular_estadisticas(&raiz, &mut stats, 1);
    assert_eq!(stats.total_nodos, 1000);
    assert_eq!(stats.altura_total, h);
    for i in (1..=1000u32).step_by(2) {
        raiz = eliminar(raiz.take(), i);
    }
    assert!(es_avl(&raiz));
    assert_eq!(contenido(&raiz).len(), 500);
}

fn extremo_derecho(t: &Option<Box<Nodo>>) -> Option<u32> {
    let mut actual = t.as_ref()?;
    while let Some(d) = actual.derecho.as_ref() {
        actual = d;
    }
    Some(actual.libro.isbn)
}

#[test]
fn ley_mayor_es_el_extremo_derecho_valores() {
    let raiz = construir(&[(50, "a"), (20, "b"), (70, "c"), (60, "d"), (10, "e"), (65, "f")]);
    let mut stats = stats_vacias();
    calcular_estadisticas(&raiz, &mut stats, 1);
    assert_eq!(stats.isbn_mas_alto, extremo_derecho(&raiz));
    assert_eq!(stats.isbn_mas_alto, Some(70));
}

#[test]
fn ley_rotaciones_conservan_el_contenido() {
    let raiz = construir(&[(20, "a"), (10, "b"), (30, "c"), (5, "d"), (15, "e")]).unwrap();
    let orden_antes = contenido(&Some(raiz));
    let raiz = construir(&[(20, "a"), (10, "b"), (30, "c"), (5, "d"), (15, "e")]).unwrap();
    let rotado = rotar_derecha(raiz);
    assert_eq!(contenido(&Some(rotado)), orden_antes);
    let raiz = construir(&[(20, "a"), (10, "b"), (30, "c"), (25, "d"), (35, "e")]).unwrap();
    let orden = contenido(&Some(construir(&[(20, "a"), (10, "b"), (30, "c"), (25, "d"), (35, "e")]).unwrap()));
    let rotado = rotar_izquierda(raiz);
    assert_eq!(contenido(&Some(rotado)), orden);
}

#[test]
fn buscar_sigue_el_camino_aunque_el_arbol_no_este_ordenado() {
    // 10 con un 20 a su izquierda: el camino de 20 va a la derecha y no lo encuentra.
    let mut n = Nodo::nuevo(libro(10, "a"));
    n.izquierdo = Some(hoja(20));
    n.altura = 2;
    let t = Some(Box::new(n));
    assert!(buscar(&t, 20).is_none());
    assert_eq!(buscar(&t, 10).unwrap().isbn, 10);
}

/// Nodo con la altura calculada a partir de sus hijos.
fn nodo(isbn: u32, izq: Option<Box<Nodo>>, der: Option<Box<Nodo>>) -> Option<Box<Nodo>> {
    let altura = 1 + std::cmp::max(altura(&izq), altura(&der));
    Some(Box::new(Nodo { libro: libro(isbn, "x"), izquierdo: izq, derecho: der, altura }))
}

#[test]
fn estadisticas_empate_se_queda_con_el_primero_en_orden() {
    let mut raiz = Nodo::nuevo(libro(5, "A"));
    raiz.izquierdo = Some(Box::new(Nodo::nuevo(libro(5, "B"))));
    raiz.altura = 2;
    let t = Some(Box::new(raiz));
    let mut stats = stats_vacias();
    calcular_estadisticas(&t, &mut stats, 1);
    assert_eq!(stats.total_nodos, 2);
    assert_eq!(stats.altura_total, 2);
    assert_eq!(stats.isbn_mas_alto, Some(5));
    assert_eq!(stats.titulo_isbn_mas_alto, Some("B".to_string()));
}

#[test]
fn balancear_no_toca_un_balance_entre_menos_uno_y_uno() {
    // alturas guardadas incoherentes pero balance guardado 0: se devuelve tal cual
    let mut n = Nodo::nuevo(libro(10, "a"));
    let mut izq = Nodo::nuevo(libro(5, "b"));
    izq.altura = 7;
    let mut der = Nodo::nuevo(libro(20, "c"));
    der.altura = 7;
    n.izquierdo = Some(Box::new(izq));
    n.derecho = Some(Box::new(der));
    n.altura = 1;
    let r = balancear(Box::new(n));
    assert_eq!(r.altura, 1);
    assert_eq!(r.izquierdo.as_ref().unwrap().altura, 7);
    assert_eq!(forma(&Some(r)), "10(5,20)");
}

#[test]
fn balancear_un_nodo_muy_cargado() {
    // 4(3(2(1,-),-),-): balance 3, hijo con balance 2: rotación simple a la derecha
    let t = nodo(4, nodo(3, nodo(2, nodo(1, None, None), None), None), None);
    let r = Some(balancear(t.unwrap()));
    assert_eq!(forma(&r), "3(2(1,-),4)");
    assert_eq!(r.as_ref().unwrap().altura, 3);
    assert_eq!(altura(&r), 3);
}

#[test]
fn extraer_minimo_de_arbol_ordenado_no_equilibrado() {
    let t = nodo(3, nodo(2, nodo(1, None, None), None), None);
    let (min, resto) = extraer_minimo(t.unwrap());
    assert_eq!(min.libro.isbn, 1);
    assert_eq!(forma(&resto), "3(2,-)");
    assert_eq!(resto.as_ref().unwrap().altura, 2);

    let t = nodo(1, None, nodo(2, None, nodo(3, None, None)));
    let (min, resto) = extraer_minimo(t.unwrap());
    assert_eq!(min.libro.isbn, 1);
    assert_eq!(forma(&resto), "2(-,3)");
}

#[test]
fn extraer_minimo_con_rotacion_a_la_izquierda() {
    let raiz = construir(&[(20, "a"), (10, "b"), (30, "c"), (25, "d"), (40, "e")]);
    assert_eq!(forma(&raiz), "20(10,30(25,40))");
    let (min, resto) = extraer_minimo(raiz.unwrap());
    assert_eq!(min.libro.isbn, 10);
    assert_eq!(min.libro.titulo, "b");
    assert_eq!(forma(&resto), "30(20(-,25),40)");
    assert_eq!(resto.as_ref().unwrap().altura, 3);
    assert!(es_avl(&resto));
}

#[test]
fn eliminar_en_arbol_ordenado_no_equilibrado() {
    let t = nodo(1, None, nodo(2, None, nodo(3, None, nodo(4, None, None))));
    let r = eliminar(t, 1);
    assert_eq!(forma(&r), "2(-,3(-,4))");
    let t = nodo(4, nodo(3, nodo(2, nodo(1, None, None), None), None), None);
    let r = eliminar(t, 4);
    assert_eq!(forma(&r), "3(2(1,-),-)");
    let t = nodo(4, nodo(3, nodo(2, nodo(1, None, None), None), None), None);
    let r = eliminar(t, 1);
    let isbns: Vec<u32> = contenido(&r).into_iter().map(|p| p.0).collect();
    assert_eq!(isbns, vec![2, 3, 4]);
    assert_eq!(altura(&r), r.as_ref().unwrap().altura);
}

#[test]
fn eliminar_hoja_y_nodo_con_un_hijo() {
    let hoja_sola = nodo(7, None, None);
    assert!(eliminar(hoja_sola, 7).is_none());
    let t = nodo(7, None, nodo(9, None, None));
    assert_eq!(forma(&eliminar(t, 7)), "9");
    let t = nodo(7, nodo(3, None, None), None);
    assert_eq!(forma(&eliminar(t, 7)), "3");
}
