//! Inserción de un libro en el árbol AVL.
use vstd::prelude::*;
use crate::modelo::{
    Libro, Nodo, altura_guardada, altura_real, alturas_correctas, con_altura_actualizada,
    contenido, en_orden, equilibrado, es_avl, factor, ordenado, sin_isbn, lema_altura_guardada,
    lema_sin_isbn_arbol, lema_sin_isbn_ausente, lema_sin_isbn_partes,
};
use crate::altura::{actualizar_altura, obtener_balance};
use crate::rotaciones::{
    rotar_derecha, rotar_izquierda, rotacion_derecha, rotacion_izquierda, lema_rotacion_derecha,
    lema_rotacion_izquierda,
};

verus! {

/// El contenido tras insertar `libro`: si su ISBN ya estaba, nada cambia; si no, se añade.
pub open spec fn con_libro(m: Map<u32, Libro>, libro: Libro) -> Map<u32, Libro> {
    if m.contains_key(libro.isbn) {
        m
    } else {
        m.insert(libro.isbn, libro)
    }
}

/// El re-balanceo tras insertar el ISBN `isbn` bajo `n`, cuya altura ya está actualizada,
/// según las alturas guardadas: izquierda-izquierda rota a la derecha, derecha-derecha a la
/// izquierda, izquierda-derecha y derecha-izquierda hacen la rotación doble; si el balance
/// está entre -1 y 1, `n` tal cual.
pub open spec fn ajuste_insercion(n: Nodo, isbn: u32) -> Nodo {
    let b = altura_guardada(n.izquierdo) - altura_guardada(n.derecho);
    if b > 1 && isbn < n.izquierdo->0.libro.isbn {
        rotacion_derecha(n)
    } else if b < -1 && isbn > n.derecho->0.libro.isbn {
        rotacion_izquierda(n)
    } else if b > 1 && isbn > n.izquierdo->0.libro.isbn {
        rotacion_derecha(Nodo { izquierdo: Some(Box::new(rotacion_izquierda(*n.izquierdo->0))), ..n })
    } else if b < -1 && isbn < n.derecho->0.libro.isbn {
        rotacion_izquierda(Nodo { derecho: Some(Box::new(rotacion_derecha(*n.derecho->0))), ..n })
    } else {
        n
    }
}

/// La raíz que deja insertar `libro` en `t`: en un árbol vacío, una hoja; con el ISBN en
/// la raíz, la raíz tal cual; si no, se inserta en el subárbol que toca y el nodo, con la
/// altura actualizada, pasa por `ajuste_insercion`.
pub open spec fn tras_insertar(t: Option<Box<Nodo>>, libro: Libro) -> Nodo
    decreases t,
{
    match t {
        None => Nodo { libro, izquierdo: None, derecho: None, altura: 1 },
        Some(n) => if libro.isbn < n.libro.isbn {
            ajuste_insercion(
                con_altura_actualizada(
                    Nodo { izquierdo: Some(Box::new(tras_insertar(n.izquierdo, libro))), ..*n },
                ),
                libro.isbn,
            )
        } else if libro.isbn > n.libro.isbn {
            ajuste_insercion(
                con_altura_actualizada(
                    Nodo { derecho: Some(Box::new(tras_insertar(n.derecho, libro))), ..*n },
                ),
                libro.isbn,
            )
        } else {
            *n
        },
    }
}

/// Lo que garantiza insertar `libro` en el AVL `t`, siendo `r` la nueva raíz (ver
/// `insertar`).
pub open spec fn garantias_insertar(t: Option<Box<Nodo>>, libro: Libro, r: Nodo) -> bool {
    let tr = Some(Box::new(r));
    &&& es_avl(tr)
    &&& contenido(tr) == con_libro(contenido(t), libro)
    &&& contenido(t).contains_key(libro.isbn) ==> tr == t
    &&& !contenido(t).contains_key(libro.isbn) ==> sin_isbn(en_orden(tr), libro.isbn) == en_orden(t)
    &&& altura_real(t) <= altura_real(tr) <= altura_real(t) + 1
    &&& t is Some && altura_real(tr) == altura_real(t) + 1 ==> {
        ||| factor(r) == 1 && libro.isbn < r.libro.isbn
        ||| factor(r) == -1 && r.libro.isbn < libro.isbn
    }
}

/// Insertar en un AVL cuya altura cabe en `i32` con margen cumple `garantias_insertar`.
pub proof fn lema_insertar(t: Option<Box<Nodo>>, libro: Libro)
    requires
        es_avl(t),
        altura_real(t) < i32::MAX,
    ensures
        garantias_insertar(t, libro, tras_insertar(t, libro)),
    decreases t,
{
    match t {
        None => {
            let r = tras_insertar(t, libro);
            assert(r == Nodo { libro, izquierdo: None, derecho: None, altura: 1 });
            assert(en_orden(r.izquierdo) == Seq::<Libro>::empty());
            assert(contenido(Some(Box::new(r))) =~= con_libro(contenido(t), libro));
            lema_sin_isbn_partes(Seq::empty(), libro, Seq::empty(), libro.isbn);
            lema_sin_isbn_ausente(Seq::empty(), libro.isbn);
            assert(en_orden(Some(Box::new(r))) =~= Seq::<Libro>::empty().push(libro) + Seq::<
                Libro,
            >::empty());
        },
        Some(n) => {
            if libro.isbn < n.libro.isbn {
                lema_insertar(n.izquierdo, libro);
                lema_insertar_a_la_izquierda(*n, libro);
            } else if libro.isbn > n.libro.isbn {
                lema_insertar(n.derecho, libro);
                lema_insertar_a_la_derecha(*n, libro);
            }
        },
    }
}

/// Si el ISBN `isbn` (menor que el de la raíz, ausente a la derecha) sale del recorrido
/// del nuevo hijo izquierdo `x` dejando el del anterior, sale igual del nodo entero.
proof fn lema_sin_isbn_bajo_izquierdo(n: Nodo, x: Nodo, isbn: u32)
    requires
        isbn < n.libro.isbn,
        !contenido(n.derecho).contains_key(isbn),
        sin_isbn(en_orden(Some(Box::new(x))), isbn) == en_orden(n.izquierdo),
    ensures
        sin_isbn(
            en_orden(Some(Box::new(con_altura_actualizada(Nodo { izquierdo: Some(Box::new(x)), ..n })))),
            isbn,
        ) == en_orden(Some(Box::new(n))),
{
    lema_sin_isbn_partes(en_orden(Some(Box::new(x))), n.libro, en_orden(n.derecho), isbn);
    lema_sin_isbn_arbol(n.derecho, isbn);
}

/// Si el ISBN `isbn` (mayor que el de la raíz, ausente a la izquierda) sale del recorrido
/// del nuevo hijo derecho `y` dejando el del anterior, sale igual del nodo entero.
proof fn lema_sin_isbn_bajo_derecho(n: Nodo, y: Nodo, isbn: u32)
    requires
        isbn > n.libro.isbn,
        !contenido(n.izquierdo).contains_key(isbn),
        sin_isbn(en_orden(Some(Box::new(y))), isbn) == en_orden(n.derecho),
    ensures
        sin_isbn(
            en_orden(Some(Box::new(con_altura_actualizada(Nodo { derecho: Some(Box::new(y)), ..n })))),
            isbn,
        ) == en_orden(Some(Box::new(n))),
{
    lema_sin_isbn_partes(en_orden(n.izquierdo), n.libro, en_orden(Some(Box::new(y))), isbn);
    lema_sin_isbn_arbol(n.izquierdo, isbn);
}

proof fn lema_insertar_a_la_izquierda(n: Nodo, libro: Libro)
    requires
        es_avl(Some(Box::new(n))),
        altura_real(Some(Box::new(n))) < i32::MAX,
        libro.isbn < n.libro.isbn,
        garantias_insertar(n.izquierdo, libro, tras_insertar(n.izquierdo, libro)),
    ensures
        garantias_insertar(Some(Box::new(n)), libro, tras_insertar(Some(Box::new(n)), libro)),
{
    let t = Some(Box::new(n));
    let isbn = libro.isbn;
    let x = tras_insertar(n.izquierdo, libro);
    let n1 = Nodo { izquierdo: Some(Box::new(x)), ..n };
    let n2 = con_altura_actualizada(n1);
    lema_altura_guardada(n1.izquierdo);
    lema_altura_guardada(n.izquierdo);
    lema_altura_guardada(n.derecho);
    assert(forall|k: u32| #[trigger] contenido(n1.izquierdo).contains_key(k) ==> k < n.libro.isbn);
    assert(!contenido(n.derecho).contains_key(isbn));
    assert(contenido(Some(Box::new(n2))) =~= con_libro(contenido(t), libro));
    assert(ordenado(Some(Box::new(n2))));
    assert(alturas_correctas(Some(Box::new(n2))));
    if contenido(t).contains_key(isbn) {
        assert(n2 == n);
    } else {
        lema_sin_isbn_bajo_izquierdo(n, x, isbn);
    }
    let b = altura_guardada(n2.izquierdo) - altura_guardada(n2.derecho);
    assert(b == factor(n2));
    let hd = altura_real(n.derecho);
    if b > 1 {
        assert(altura_real(n2.izquierdo) == hd + 2);
        assert(n.izquierdo is Some);
        assert(equilibrado(n2.izquierdo));
        assert(alturas_correctas(n2.izquierdo));
        lema_altura_guardada(x.izquierdo);
        lema_altura_guardada(x.derecho);
        if isbn < x.libro.isbn {
            assert(factor(x) == 1);
            assert(altura_real(x.izquierdo) == hd + 1);
            assert(altura_real(x.derecho) == hd);
            lema_rotacion_derecha(n2);
        } else {
            assert(factor(x) == -1);
            assert(x.derecho is Some);
            assert(alturas_correctas(x.derecho));
            assert(equilibrado(x.derecho));
            lema_altura_guardada(x.derecho->0.izquierdo);
            lema_altura_guardada(x.derecho->0.derecho);
            assert(altura_real(x.izquierdo) == hd);
            assert(altura_real(x.derecho) == hd + 1);
            lema_rotacion_izquierda(x);
            let lp = rotacion_izquierda(x);
            assert(altura_real(lp.izquierdo) == hd + 1);
            assert(equilibrado(lp.izquierdo));
            assert(equilibrado(lp.derecho));
            let np = Nodo { izquierdo: Some(Box::new(lp)), ..n2 };
            assert(en_orden(Some(Box::new(np))) =~= en_orden(Some(Box::new(n2))));
            assert(ordenado(Some(Box::new(np))));
            lema_altura_guardada(lp.izquierdo);
            lema_altura_guardada(lp.derecho);
            assert(hd - 1 <= altura_real(lp.derecho) <= hd);
            lema_rotacion_derecha(np);
        }
    }
}

proof fn lema_insertar_a_la_derecha(n: Nodo, libro: Libro)
    requires
        es_avl(Some(Box::new(n))),
        altura_real(Some(Box::new(n))) < i32::MAX,
        libro.isbn > n.libro.isbn,
        garantias_insertar(n.derecho, libro, tras_insertar(n.derecho, libro)),
    ensures
        garantias_insertar(Some(Box::new(n)), libro, tras_insertar(Some(Box::new(n)), libro)),
{
    let t = Some(Box::new(n));
    let isbn = libro.isbn;
    let y = tras_insertar(n.derecho, libro);
    let n1 = Nodo { derecho: Some(Box::new(y)), ..n };
    let n2 = con_altura_actualizada(n1);
    lema_altura_guardada(n1.derecho);
    lema_altura_guardada(n.izquierdo);
    lema_altura_guardada(n.derecho);
    assert(forall|k: u32| #[trigger] contenido(n1.derecho).contains_key(k) ==> n.libro.isbn < k);
    assert(!contenido(n.izquierdo).contains_key(isbn));
    assert(contenido(Some(Box::new(n2))) =~= con_libro(contenido(t), libro));
    assert(ordenado(Some(Box::new(n2))));
    assert(alturas_correctas(Some(Box::new(n2))));
    if contenido(t).contains_key(isbn) {
        assert(n2 == n);
    } else {
        lema_sin_isbn_bajo_derecho(n, y, isbn);
    }
    let b = altura_guardada(n2.izquierdo) - altura_guardada(n2.derecho);
    assert(b == factor(n2));
    let hi = altura_real(n.izquierdo);
    if b < -1 {
        assert(altura_real(n2.derecho) == hi + 2);
        assert(n.derecho is Some);
        assert(equilibrado(n2.derecho));
        assert(alturas_correctas(n2.derecho));
        lema_altura_guardada(y.izquierdo);
        lema_altura_guardada(y.derecho);
        if isbn > y.libro.isbn {
            assert(factor(y) == -1);
            assert(altura_real(y.derecho) == hi + 1);
            assert(altura_real(y.izquierdo) == hi);
            lema_rotacion_izquierda(n2);
        } else {
            assert(factor(y) == 1);
            assert(y.izquierdo is Some);
            assert(alturas_correctas(y.izquierdo));
            assert(equilibrado(y.izquierdo));
            lema_altura_guardada(y.izquierdo->0.izquierdo);
            lema_altura_guardada(y.izquierdo->0.derecho);
            assert(altura_real(y.derecho) == hi);
            assert(altura_real(y.izquierdo) == hi + 1);
            lema_rotacion_derecha(y);
            let dp = rotacion_derecha(y);
            assert(altura_real(dp.derecho) == hi + 1);
            assert(equilibrado(dp.derecho));
            assert(equilibrado(dp.izquierdo));
            let np = Nodo { derecho: Some(Box::new(dp)), ..n2 };
            assert(en_orden(Some(Box::new(np))) =~= en_orden(Some(Box::new(n2))));
            assert(ordenado(Some(Box::new(np))));
            lema_altura_guardada(dp.izquierdo);
            lema_altura_guardada(dp.derecho);
            assert(hi - 1 <= altura_real(dp.izquierdo) <= hi);
            lema_rotacion_izquierda(np);
        }
    }
}

/// Inserta `libro` en el árbol AVL `nodo_opt` y devuelve la nueva raíz, ya balanceada (ver
/// `tras_insertar`).
///
/// Un ISBN que ya está en el árbol deja el árbol exactamente como estaba (el libro nuevo
/// se descarta). El resultado es un AVL cuyo contenido es el anterior con el libro
/// añadido; su altura es la anterior o una más, y cuando crece la raíz queda inclinada
/// hacia el lado por el que entró el ISBN nuevo.
pub fn insertar(nodo_opt: Option<Box<Nodo>>, libro: Libro) -> (r: Box<Nodo>)
    requires
        es_avl(nodo_opt),
        altura_real(nodo_opt) < i32::MAX,
    ensures
        *r == tras_insertar(nodo_opt, libro),
        garantias_insertar(nodo_opt, libro, *r),
    decreases nodo_opt,
{
    proof {
        lema_insertar(nodo_opt, libro);
    }
    let mut nodo = match nodo_opt {
        None => return Box::new(Nodo::nuevo(libro)),
        Some(n) => n,
    };
    let ghost n0 = *nodo;
    let isbn_nuevo = libro.isbn;

    if isbn_nuevo < nodo.libro.isbn {
        nodo.izquierdo = Some(insertar(nodo.izquierdo.take(), libro));
    } else if isbn_nuevo > nodo.libro.isbn {
        nodo.derecho = Some(insertar(nodo.derecho.take(), libro));
    } else {
        return nodo;
    }

    proof {
        lema_altura_guardada(n0.izquierdo);
        lema_altura_guardada(n0.derecho);
        lema_altura_guardada(nodo.izquierdo);
        lema_altura_guardada(nodo.derecho);
    }
    actualizar_altura(&mut *nodo);
    let balance = obtener_balance(&nodo);
    proof {
        if balance > 1 {
            assert(alturas_correctas(nodo.izquierdo));
            lema_altura_guardada(nodo.izquierdo->0.izquierdo);
            lema_altura_guardada(nodo.izquierdo->0.derecho);
            if nodo.izquierdo->0.derecho is Some {
                assert(alturas_correctas(nodo.izquierdo->0.derecho));
                lema_altura_guardada(nodo.izquierdo->0.derecho->0.izquierdo);
                lema_altura_guardada(nodo.izquierdo->0.derecho->0.derecho);
            }
        }
        if balance < -1 {
            assert(alturas_correctas(nodo.derecho));
            lema_altura_guardada(nodo.derecho->0.izquierdo);
            lema_altura_guardada(nodo.derecho->0.derecho);
            if nodo.derecho->0.izquierdo is Some {
                assert(alturas_correctas(nodo.derecho->0.izquierdo));
                lema_altura_guardada(nodo.derecho->0.izquierdo->0.izquierdo);
                lema_altura_guardada(nodo.derecho->0.izquierdo->0.derecho);
            }
        }
    }

    // Caso 1: izquierda-izquierda
    if balance > 1 && isbn_nuevo < nodo.izquierdo.as_ref().unwrap().libro.isbn {
        return rotar_derecha(nodo);
    }
    // Caso 2: derecha-derecha
    if balance < -1 && isbn_nuevo > nodo.derecho.as_ref().unwrap().libro.isbn {
        return rotar_izquierda(nodo);
    }
    // Caso 3: izquierda-derecha
    if balance > 1 && isbn_nuevo > nodo.izquierdo.as_ref().unwrap().libro.isbn {
        let hijo_izq = nodo.izquierdo.take().unwrap();
        nodo.izquierdo = Some(rotar_izquierda(hijo_izq));
        proof {
            lema_altura_guardada(nodo.izquierdo->0.izquierdo);
            lema_altura_guardada(nodo.izquierdo->0.derecho);
        }
        return rotar_derecha(nodo);
    }
    // Caso 4: derecha-izquierda
    if balance < -1 && isbn_nuevo < nodo.derecho.as_ref().unwrap().libro.isbn {
        let hijo_der = nodo.derecho.take().unwrap();
        nodo.derecho = Some(rotar_derecha(hijo_der));
        proof {
            lema_altura_guardada(nodo.derecho->0.izquierdo);
            lema_altura_guardada(nodo.derecho->0.derecho);
        }
        return rotar_izquierda(nodo);
    }

    nodo
}

} // verus!
